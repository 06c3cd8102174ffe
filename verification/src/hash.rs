//! The control-sequence table: interning of identifier text to stable ids.
//!
//! A name hashes deterministically into the ordinary slot range; collisions
//! are resolved by scanning forward cyclically until the name or a free
//! slot is found.  An id, once created, is never reassigned or recycled,
//! so a name always resolves to the same id for the lifetime of the
//! process.  The reserved ("frozen") ids occupy the block at the end of
//! the slot range, are pre-populated at initialization, and are excluded
//! from ordinary lookup and creation.

use vstd::prelude::*;
use crate::array::Array;
use crate::word::TwoHalves;
use crate::eqtb::{
    FONT_ID_BASE, FROZEN_CONTROL_SEQUENCE, FROZEN_CR, FROZEN_DONT_EXPAND, FROZEN_END_GROUP,
    FROZEN_END_TEMPLATE, FROZEN_ENDV, FROZEN_FI, FROZEN_NULL_FONT, FROZEN_PROTECTION,
    FROZEN_RELAX, FROZEN_RIGHT, END_WRITE, HASH_BASE, HASH_PRIME, HASH_SIZE,
    UNDEFINED_CONTROL_SEQUENCE,
};
use crate::TexError;

verus! {

/// Total number of slots, ordinary and reserved together: ids run from
/// `HASH_BASE` up to (not including) `UNDEFINED_CONTROL_SEQUENCE`.
pub const CS_TABLE_SLOTS: u16 = UNDEFINED_CONTROL_SEQUENCE - HASH_BASE;

/// The deterministic hash of a name, a value below `HASH_PRIME`.
pub open spec fn spec_hash(name: Seq<u8>) -> int
    decreases name.len(),
{
    if name.len() == 0 {
        0int
    } else if name.len() == 1 {
        name[0] as int
    } else {
        (2 * spec_hash(name.drop_last()) + name.last()) % (HASH_PRIME as int)
    }
}

pub proof fn lemma_hash_range(name: Seq<u8>)
    ensures
        0 <= spec_hash(name) < HASH_PRIME,
    decreases name.len(),
{
    if name.len() > 1 {
        lemma_hash_range(name.drop_last());
    }
}

/// The ordinary slot at cyclic distance `d` from slot `h`.
pub open spec fn cyc_index(h: int, d: int) -> int {
    if h + d < HASH_SIZE {
        h + d
    } else {
        h + d - HASH_SIZE
    }
}

/// The cyclic distance from slot `h` forward to slot `i`.
pub open spec fn cyc_dist(h: int, i: int) -> int {
    if i >= h {
        i - h
    } else {
        i + HASH_SIZE - h
    }
}

/// No two ordinary slots hold the same name.
pub open spec fn names_distinct(s: Seq<Option<Seq<u8>>>) -> bool {
    forall|i: int, j: int|
        0 <= i < HASH_SIZE && 0 <= j < HASH_SIZE && i != j && (#[trigger] s[i]) is Some && (
        #[trigger] s[j]) is Some ==> s[i] != s[j]
}

/// Every occupied ordinary slot is reachable from its name's hash slot:
/// each slot on the cyclic path before it is occupied too.  Insertion
/// claims the first free slot of the scan, and slots are never vacated,
/// so the property is preserved for the lifetime of the table.
pub open spec fn probe_paths_full(s: Seq<Option<Seq<u8>>>) -> bool {
    forall|i: int, d: int|
        0 <= i < HASH_SIZE && (#[trigger] s[i]) is Some && 0 <= d < cyc_dist(
            spec_hash(s[i]->0),
            i,
        ) ==> s[#[trigger] cyc_index(spec_hash(s[i]->0), d)] is Some
}

/// Whether some ordinary slot holds `name`.
pub open spec fn spec_contains(s: Seq<Option<Seq<u8>>>, name: Seq<u8>) -> bool {
    exists|i: int| 0 <= i < HASH_SIZE && s[i] == Some(name)
}

/// Law: interning is deterministic.  Two occupied slots resolve to the
/// same id exactly when they hold the same name: looking a name up twice
/// yields the same id, and two different names never share one.
pub proof fn lemma_id_determinism(s: Seq<Option<Seq<u8>>>, n1: Seq<u8>, n2: Seq<u8>, i: int, j: int)
    requires
        names_distinct(s),
        0 <= i < HASH_SIZE,
        0 <= j < HASH_SIZE,
        s[i] == Some(n1),
        s[j] == Some(n2),
    ensures
        i == j <==> n1 == n2,
{
}

/// What a probe of the ordinary range finds.
enum ProbeOutcome {
    Found(u16),
    Empty(u16),
    Full,
}

/// Compares a stored name with a sought one, byte for byte.
fn bytes_eq(a: &Vec<u8>, b: &[u8]) -> (r: bool)
    ensures
        r <==> a@ == b@,
{
    if a.len() != b.len() {
        proof {
            assert(a@.len() != b@.len());
        }
        return false;
    }
    let n = a.len();
    let mut i: usize = 0;
    while i < n
        invariant
            n == a@.len(),
            n == b@.len(),
            i <= n,
            forall|j: int| 0 <= j < i ==> a@[j] == b@[j],
        decreases n - i,
    {
        if a[i] != b[i] {
            return false;
        }
        i = i + 1;
    }
    proof {
        assert(a@ =~= b@);
    }
    true
}

/// Copies a name out of borrowed text.
fn bytes_to_vec(b: &[u8]) -> (r: Vec<u8>)
    ensures
        r@ == b@,
{
    let mut v: Vec<u8> = Vec::new();
    let n = b.len();
    let mut i: usize = 0;
    while i < n
        invariant
            n == b@.len(),
            i <= n,
            v@ == b@.take(i as int),
        decreases n - i,
    {
        v.push(b[i]);
        proof {
            assert(v@ =~= b@.take(i + 1));
        }
        i = i + 1;
    }
    proof {
        assert(v@ =~= b@);
    }
    v
}

/// The deterministic hash of a name.
fn hash_of(name: &[u8]) -> (h: u16)
    ensures
        h == spec_hash(name@),
        h < HASH_PRIME || name@.len() <= 1,
        h < HASH_SIZE,
{
    proof {
        lemma_hash_range(name@);
    }
    let n = name.len();
    if n == 0 {
        return 0;
    }
    let mut h: u16 = name[0] as u16;
    let mut i: usize = 1;
    proof {
        assert(name@.take(1int) =~= seq![name@[0]]);
    }
    while i < n
        invariant
            1 <= i <= n,
            n == name@.len(),
            h == spec_hash(name@.take(i as int)),
            h < HASH_PRIME || i == 1,
            h <= 1776 || h <= 255,
        decreases n - i,
    {
        let c = name[i];
        h = (2 * h + c as u16) % HASH_PRIME;
        proof {
            assert(name@.take(i + 1).drop_last() =~= name@.take(i as int));
            assert(name@.take(i + 1).last() == name@[i as int]);
        }
        i = i + 1;
    }
    proof {
        assert(name@.take(n as int) =~= name@);
    }
    h
}

/// The interning table.  Ordinary slots occupy the first `HASH_SIZE`
/// positions; the reserved block fills the rest.
pub struct ControlSeqTable {
    names: Vec<Option<Vec<u8>>>,
}

/// The text a slot holds, if any.
pub open spec fn slot_view(o: Option<Vec<u8>>) -> Option<Seq<u8>> {
    match o {
        Some(v) => Some(v@),
        None => None,
    }
}

/// The texts a whole slot vector holds.
pub open spec fn names_view(v: Seq<Option<Vec<u8>>>) -> Seq<Option<Seq<u8>>> {
    v.map_values(|o: Option<Vec<u8>>| slot_view(o))
}

/// What a bulk-loaded table snapshot must satisfy: the full slot range,
/// no name in two ordinary slots, and every occupied ordinary slot
/// reachable from its name's hash slot.
pub open spec fn import_names_valid(s: Seq<Option<Seq<u8>>>) -> bool {
    &&& s.len() == CS_TABLE_SLOTS
    &&& names_distinct(s)
    &&& probe_paths_full(s)
}

impl ControlSeqTable {
    /// The stored names, slot by slot; slot `k` holds the text of id
    /// `HASH_BASE + k`.
    pub closed spec fn slots(&self) -> Seq<Option<Seq<u8>>> {
        names_view(self.names@)
    }

    /// Whether `name` is interned in an ordinary slot.
    pub open spec fn contains(&self, name: Seq<u8>) -> bool {
        spec_contains(self.slots(), name)
    }

    /// The text of id `id`, if that id is in use.
    pub open spec fn text_at(&self, id: int) -> Option<Seq<u8>> {
        self.slots()[id - HASH_BASE]
    }

    pub open spec fn wf(&self) -> bool {
        &&& self.slots().len() == CS_TABLE_SLOTS
        &&& names_distinct(self.slots())
        &&& probe_paths_full(self.slots())
    }

    /// A fresh table: every ordinary slot free, and the reserved block at
    /// the end of the slot range pre-populated with the fixed frozen
    /// names, which ordinary creation never returns.
    pub fn new() -> (r: ControlSeqTable)
        ensures
            r.wf(),
            forall|k: int| 0 <= k < HASH_SIZE ==> r.slots()[k] is None,
            r.text_at(FROZEN_PROTECTION as int) == Some(
                seq![105u8, 110u8, 97u8, 99u8, 99u8, 101u8, 115u8, 115u8, 105u8, 98u8, 108u8, 101u8],
            ),
            r.text_at(FROZEN_CR as int) == Some(seq![99u8, 114u8]),
            r.text_at(FROZEN_END_GROUP as int) == Some(
                seq![101u8, 110u8, 100u8, 103u8, 114u8, 111u8, 117u8, 112u8],
            ),
            r.text_at(FROZEN_RIGHT as int) == Some(seq![114u8, 105u8, 103u8, 104u8, 116u8]),
            r.text_at(FROZEN_FI as int) == Some(seq![102u8, 105u8]),
            r.text_at(FROZEN_END_TEMPLATE as int) == Some(
                seq![101u8, 110u8, 100u8, 116u8, 101u8, 109u8, 112u8, 108u8, 97u8, 116u8, 101u8],
            ),
            r.text_at(FROZEN_ENDV as int) == Some(seq![101u8, 110u8, 100u8, 118u8]),
            r.text_at(FROZEN_RELAX as int) == Some(seq![114u8, 101u8, 108u8, 97u8, 120u8]),
            r.text_at(END_WRITE as int) == Some(
                seq![101u8, 110u8, 100u8, 119u8, 114u8, 105u8, 116u8, 101u8],
            ),
            r.text_at(FROZEN_DONT_EXPAND as int) == Some(
                seq![110u8, 111u8, 116u8, 101u8, 120u8, 112u8, 97u8, 110u8, 100u8, 101u8, 100u8, 58u8],
            ),
            r.text_at(FROZEN_NULL_FONT as int) == Some(
                seq![110u8, 117u8, 108u8, 108u8, 102u8, 111u8, 110u8, 116u8],
            ),
    {
        let mut names: Vec<Option<Vec<u8>>> = Vec::new();
        let total = CS_TABLE_SLOTS as usize;
        let mut k: usize = 0;
        while k < total
            invariant
                k <= total,
                names@.len() == k,
                forall|j: int| 0 <= j < k ==> (#[trigger] names@[j]) is None,
            decreases total - k,
        {
            names.push(None);
            k = k + 1;
        }
        names[(FROZEN_PROTECTION - HASH_BASE) as usize] = Some(
            vec![105u8, 110u8, 97u8, 99u8, 99u8, 101u8, 115u8, 115u8, 105u8, 98u8, 108u8, 101u8],
        );
        names[(FROZEN_CR - HASH_BASE) as usize] = Some(vec![99u8, 114u8]);
        names[(FROZEN_END_GROUP - HASH_BASE) as usize] = Some(
            vec![101u8, 110u8, 100u8, 103u8, 114u8, 111u8, 117u8, 112u8],
        );
        names[(FROZEN_RIGHT - HASH_BASE) as usize] = Some(vec![114u8, 105u8, 103u8, 104u8, 116u8]);
        names[(FROZEN_FI - HASH_BASE) as usize] = Some(vec![102u8, 105u8]);
        names[(FROZEN_END_TEMPLATE - HASH_BASE) as usize] = Some(
            vec![101u8, 110u8, 100u8, 116u8, 101u8, 109u8, 112u8, 108u8, 97u8, 116u8, 101u8],
        );
        names[(FROZEN_ENDV - HASH_BASE) as usize] = Some(vec![101u8, 110u8, 100u8, 118u8]);
        names[(FROZEN_RELAX - HASH_BASE) as usize] = Some(vec![114u8, 101u8, 108u8, 97u8, 120u8]);
        names[(END_WRITE - HASH_BASE) as usize] = Some(
            vec![101u8, 110u8, 100u8, 119u8, 114u8, 105u8, 116u8, 101u8],
        );
        names[(FROZEN_DONT_EXPAND - HASH_BASE) as usize] = Some(
            vec![110u8, 111u8, 116u8, 101u8, 120u8, 112u8, 97u8, 110u8, 100u8, 101u8, 100u8, 58u8],
        );
        names[(FROZEN_NULL_FONT - HASH_BASE) as usize] = Some(
            vec![110u8, 117u8, 108u8, 108u8, 102u8, 111u8, 110u8, 116u8],
        );
        let r = ControlSeqTable { names };
        proof {
            assert(forall|j: int|
                0 <= j < HASH_SIZE ==> (#[trigger] r.slots()[j]) is None);
        }
        r
    }

    /// Probes the ordinary range for `name`, starting at its hash slot.
    fn probe(&self, name: &[u8]) -> (r: ProbeOutcome)
        requires
            self.wf(),
        ensures
            match r {
                ProbeOutcome::Found(k) => k < HASH_SIZE && self.slots()[k as int] == Some(name@),
                ProbeOutcome::Empty(k) => {
                    &&& k < HASH_SIZE
                    &&& self.slots()[k as int] is None
                    &&& !self.contains(name@)
                    &&& cyc_dist(spec_hash(name@), k as int) < HASH_SIZE
                    &&& forall|d: int|
                        0 <= d < cyc_dist(spec_hash(name@), k as int) ==> self.slots()[
                            #[trigger] cyc_index(spec_hash(name@), d)] is Some
                },
                ProbeOutcome::Full => {
                    &&& !self.contains(name@)
                    &&& forall|i: int| 0 <= i < HASH_SIZE ==> (#[trigger] self.slots()[i]) is Some
                },
            },
    {
        let h = hash_of(name);
        proof {
            lemma_hash_range(name@);
        }
        let mut k: u16 = 0;
        while k < HASH_SIZE
            invariant
                self.wf(),
                h == spec_hash(name@),
                0 <= h < HASH_SIZE,
                k <= HASH_SIZE,
                forall|d: int|
                    0 <= d < k ==> (#[trigger] self.slots()[cyc_index(h as int, d)]) is Some
                        && self.slots()[cyc_index(h as int, d)] != Some(name@),
            decreases HASH_SIZE - k,
        {
            let idx: u16 = if h + k < HASH_SIZE {
                h + k
            } else {
                h + k - HASH_SIZE
            };
            proof {
                assert(idx as int == cyc_index(h as int, k as int));
            }
            match &self.names[idx as usize] {
                Some(stored) => {
                    if bytes_eq(stored, name) {
                        proof {
                            assert(self.slots()[idx as int] == Some(name@));
                        }
                        return ProbeOutcome::Found(idx);
                    }
                    proof {
                        assert(self.slots()[idx as int] is Some);
                        assert(self.slots()[idx as int] != Some(name@));
                        assert(forall|d: int|
                            0 <= d < k + 1 ==> (#[trigger] self.slots()[
                                cyc_index(h as int, d)]) is Some && self.slots()[
                                cyc_index(h as int, d)] != Some(name@)) by {
                            assert(cyc_index(h as int, k as int) == idx as int);
                        }
                    }
                },
                None => {
                    proof {
                        assert(self.slots()[idx as int] is None);
                        // were the name present at slot j, every slot on the
                        // path before j would be occupied, and slot `idx`
                        // (which is on that path or equals j) is empty
                        if self.contains(name@) {
                            let j = choose|j: int|
                                0 <= j < HASH_SIZE && self.slots()[j] == Some(name@);
                            let dj = cyc_dist(h as int, j);
                            if dj < k {
                                assert(self.slots()[cyc_index(h as int, dj)] != Some(name@));
                                assert(cyc_index(h as int, dj) == j);
                            } else if dj == k {
                                assert(cyc_index(h as int, dj) == j);
                            } else {
                                assert(self.slots()[j] matches Some(n) && n == name@);
                                assert(self.slots()[cyc_index(spec_hash(name@), k as int)]
                                    is Some);
                            }
                        }
                    }
                    return ProbeOutcome::Empty(idx);
                },
            }
            k = k + 1;
        }
        proof {
            // every ordinary slot was visited and held some other name
            assert forall|i: int| 0 <= i < HASH_SIZE implies (#[trigger] self.slots()[i]) is Some by {
                let d = cyc_dist(h as int, i);
                assert(cyc_index(h as int, d) == i);
                assert(self.slots()[cyc_index(h as int, d)] is Some);
            }
            if self.contains(name@) {
                let j = choose|j: int| 0 <= j < HASH_SIZE && self.slots()[j] == Some(name@);
                let d = cyc_dist(h as int, j);
                assert(cyc_index(h as int, d) == j);
                assert(self.slots()[cyc_index(h as int, d)] != Some(name@));
            }
        }
        ProbeOutcome::Full
    }

    /// Finds the id of `name`, or interns `name` in a free ordinary slot.
    /// The same name always yields the same id, and two different names
    /// never share one.  Fails with `HashFull`, changing nothing, when the
    /// name is new and no free slot remains.
    pub fn lookup_or_create(&mut self, name: &[u8]) -> (r: Result<u16, TexError>)
        requires
            old(self).wf(),
        ensures
            final(self).wf(),
            match r {
                Ok(id) => {
                    &&& HASH_BASE <= id < FROZEN_CONTROL_SEQUENCE
                    &&& final(self).text_at(id as int) == Some(name@)
                    &&& final(self).contains(name@)
                    &&& old(self).contains(name@) ==> *final(self) == *old(self)
                    &&& !old(self).contains(name@) ==> old(self).text_at(id as int) is None
                        && final(self).slots() == old(self).slots().update(
                        id - HASH_BASE,
                        Some(name@),
                    )
                },
                Err(e) => {
                    &&& e == TexError::HashFull
                    &&& !old(self).contains(name@)
                    &&& forall|i: int| 0 <= i < HASH_SIZE ==> (#[trigger] old(self).slots()[i])
                        is Some
                    &&& *final(self) == *old(self)
                },
            },
    {
        let outcome = self.probe(name);
        match outcome {
            ProbeOutcome::Found(k) => Ok(HASH_BASE + k),
            ProbeOutcome::Empty(k) => {
                let ghost pre = self.slots();
                let stored = bytes_to_vec(name);
                self.names[k as usize] = Some(stored);
                proof {
                    assert(self.slots() =~= pre.update(k as int, Some(name@)));
                    lemma_hash_range(name@);
                    assert(names_distinct(self.slots())) by {
                        assert(forall|i: int|
                            0 <= i < HASH_SIZE && i != k ==> self.slots()[i] == pre[i]);
                    }
                    assert(probe_paths_full(self.slots())) by {
                        assert(forall|i: int|
                            0 <= i < HASH_SIZE && (#[trigger] pre[i]) is Some
                                ==> self.slots()[i] == pre[i]);
                        assert(forall|i: int|
                            0 <= i < HASH_SIZE && (#[trigger] self.slots()[i]) is Some ==> pre[i]
                                is Some || i == k);
                    }
                }
                Ok(HASH_BASE + k)
            },
            ProbeOutcome::Full => Err(TexError::HashFull),
        }
    }

    /// Finds the id of `name` without interning it: `None` when the name
    /// has never been created.
    pub fn lookup_existing(&self, name: &[u8]) -> (r: Option<u16>)
        requires
            self.wf(),
        ensures
            match r {
                Some(id) => HASH_BASE <= id < FROZEN_CONTROL_SEQUENCE && self.text_at(id as int)
                    == Some(name@),
                None => !self.contains(name@),
            },
    {
        match self.probe(name) {
            ProbeOutcome::Found(k) => Some(HASH_BASE + k),
            ProbeOutcome::Empty(_) => None,
            ProbeOutcome::Full => None,
        }
    }

    /// The text interned at `id`; defined only for ids in use.
    pub fn text_of(&self, id: u16) -> (r: Option<Vec<u8>>)
        requires
            self.wf(),
        ensures
            HASH_BASE <= id < UNDEFINED_CONTROL_SEQUENCE ==> match r {
                Some(v) => self.text_at(id as int) == Some(v@),
                None => self.text_at(id as int) is None,
            },
            !(HASH_BASE <= id < UNDEFINED_CONTROL_SEQUENCE) ==> r is None,
    {
        if id < HASH_BASE || id >= UNDEFINED_CONTROL_SEQUENCE {
            return None;
        }
        match &self.names[(id - HASH_BASE) as usize] {
            Some(stored) => Some(bytes_to_vec(stored.as_slice())),
            None => None,
        }
    }

    /// Exports the stored names for bulk saving, slot by slot.
    pub fn export_names(&self) -> (r: Vec<Option<Vec<u8>>>)
        requires
            self.wf(),
        ensures
            r@.len() == CS_TABLE_SLOTS,
            forall|k: int| 0 <= k < r@.len() ==> slot_view(#[trigger] r@[k]) == self.slots()[k],
    {
        let n = self.names.len();
        let mut out: Vec<Option<Vec<u8>>> = Vec::new();
        let mut i: usize = 0;
        while i < n
            invariant
                n == self.slots().len(),
                n == self.names@.len(),
                i <= n,
                out@.len() == i,
                forall|k: int| 0 <= k < i ==> slot_view(#[trigger] out@[k]) == self.slots()[k],
            decreases n - i,
        {
            match &self.names[i] {
                Some(v) => {
                    out.push(Some(bytes_to_vec(v.as_slice())));
                },
                None => {
                    out.push(None);
                },
            }
            i = i + 1;
        }
        out
    }

    /// Bulk-loads a previously saved table.  The structural invariants are
    /// re-checked at load time — no name in two ordinary slots, and every
    /// occupied ordinary slot reachable from its name's hash slot — so a
    /// corrupted snapshot is refused whole with `InvalidLocation`.
    #[verifier::rlimit(100)]
    #[verifier::loop_isolation(false)]
    pub fn import(names: Vec<Option<Vec<u8>>>) -> (r: Result<ControlSeqTable, TexError>)
        ensures
            import_names_valid(names_view(names@)) ==> {
                &&& r is Ok
                &&& r->Ok_0.wf()
                &&& r->Ok_0.slots() == names_view(names@)
            },
            !import_names_valid(names_view(names@)) ==> r == Err::<ControlSeqTable, TexError>(
                TexError::InvalidLocation,
            ),
    {
        if names.len() != CS_TABLE_SLOTS as usize {
            return Err(TexError::InvalidLocation);
        }
        let t = ControlSeqTable { names };
        let bound = HASH_SIZE as usize;
        let mut i: usize = 0;
        while i < bound
            invariant
                t.slots().len() == CS_TABLE_SLOTS,
                t.names@.len() == CS_TABLE_SLOTS,
                i <= bound,
                bound == HASH_SIZE,
                forall|i2: int, j2: int|
                    0 <= i2 < i && i2 < j2 < HASH_SIZE && (#[trigger] t.slots()[i2]) is Some && (
                    #[trigger] t.slots()[j2]) is Some ==> t.slots()[i2] != t.slots()[j2],
                forall|i2: int, d: int|
                    0 <= i2 < i && (#[trigger] t.slots()[i2]) is Some && 0 <= d < cyc_dist(
                        spec_hash(t.slots()[i2]->0),
                        i2,
                    ) ==> t.slots()[#[trigger] cyc_index(spec_hash(t.slots()[i2]->0), d)] is Some,
            decreases bound - i,
        {
            match &t.names[i] {
                None => {},
                Some(v) => {
                    let ghost nm = v@;
                    proof {
                        assert(t.slots()[i as int] == Some(nm));
                    }
                    // no later ordinary slot may hold the same name
                    let mut j: usize = i + 1;
                    while j < bound
                        invariant
                            t.slots().len() == CS_TABLE_SLOTS,
                            t.names@.len() == CS_TABLE_SLOTS,
                            i < j <= bound,
                            bound == HASH_SIZE,
                            t.slots()[i as int] == Some(nm),
                            nm == v@,
                            forall|k: int|
                                i < k < j && (#[trigger] t.slots()[k]) is Some ==> t.slots()[k]
                                    != Some(nm),
                        decreases bound - j,
                    {
                        match &t.names[j] {
                            Some(w) => {
                                if bytes_eq(w, v.as_slice()) {
                                    proof {
                                        assert(t.slots()[j as int] == Some(nm));
                                        assert(names_view(names@) == t.slots());
                                        assert(!names_distinct(names_view(names@))) by {
                                            assert(names_view(names@)[i as int] == Some(nm));
                                            assert(names_view(names@)[j as int] == Some(nm));
                                        }
                                    }
                                    return Err(TexError::InvalidLocation);
                                }
                            },
                            None => {},
                        }
                        j = j + 1;
                    }
                    // the slot must be reachable from the name's hash slot
                    let h = hash_of(v.as_slice());
                    proof {
                        lemma_hash_range(nm);
                    }
                    let mut d: u16 = 0;
                    let mut walking = true;
                    while walking
                        invariant
                            t.slots().len() == CS_TABLE_SLOTS,
                            t.names@.len() == CS_TABLE_SLOTS,
                            i < HASH_SIZE,
                            t.slots()[i as int] == Some(nm),
                            h == spec_hash(nm),
                            0 <= h < HASH_SIZE,
                            0 <= d <= cyc_dist(h as int, i as int),
                            !walking ==> d == cyc_dist(h as int, i as int),
                            forall|d2: int|
                                0 <= d2 < d ==> t.slots()[#[trigger] cyc_index(h as int, d2)]
                                    is Some,
                        decreases cyc_dist(h as int, i as int) - d + if walking {
                            1int
                        } else {
                            0int
                        },
                    {
                        let idx: u16 = if h + d < HASH_SIZE {
                            h + d
                        } else {
                            h + d - HASH_SIZE
                        };
                        proof {
                            assert(idx as int == cyc_index(h as int, d as int));
                            assert(cyc_index(h as int, cyc_dist(h as int, i as int)) == i as int);
                        }
                        if idx as usize == i {
                            walking = false;
                        } else {
                            match &t.names[idx as usize] {
                                Some(_) => {},
                                None => {
                                    proof {
                                        assert(t.slots()[idx as int] is None);
                                        assert(d < cyc_dist(h as int, i as int));
                                        assert(names_view(names@) == t.slots());
                                        let s = names_view(names@);
                                        assert(!probe_paths_full(s)) by {
                                            assert(s[i as int] == Some(nm));
                                            assert(s[i as int]->0 == nm);
                                            assert(cyc_index(spec_hash(nm), d as int)
                                                == idx as int);
                                            if probe_paths_full(s) {
                                                assert(s[cyc_index(
                                                    spec_hash(s[i as int]->0),
                                                    d as int,
                                                )] is Some);
                                                assert(false);
                                            }
                                        }
                                    }
                                    return Err(TexError::InvalidLocation);
                                },
                            }
                            d = d + 1;
                        }
                    }
                },
            }
            i = i + 1;
        }
        Ok(t)
    }

    /// Whether `id` is one of the permanently reserved ids at the end of
    /// the slot range, never returned by ordinary creation.
    pub fn is_frozen(&self, id: u16) -> (r: bool)
        ensures
            r <==> FROZEN_CONTROL_SEQUENCE <= id < UNDEFINED_CONTROL_SEQUENCE,
    {
        FROZEN_CONTROL_SEQUENCE <= id && id < UNDEFINED_CONTROL_SEQUENCE
    }
}

/// Tests whether the allocation pointer of a downward-growing slot scan has
/// reached the bottom of the range, so that no slot is left.
pub fn hash_is_full(hash_used: u16, hash_base: u16) -> (r: bool)
    ensures
        r <==> hash_used == hash_base,
{
    hash_used == hash_base
}

/// The name slot of a frozen font identifier, in the raw two-halves
/// representation of the reserved block.
pub fn font_id_text(hash: &Array<TwoHalves>, n: u16) -> (r: u16)
    requires
        hash.wf(),
        hash.spec_min() <= FONT_ID_BASE + n <= hash.spec_max(),
    ensures
        r == hash.spec_index(FONT_ID_BASE + n as int).spec_lh(),
{
    hash.get(FONT_ID_BASE as usize + n as usize).lh()
}

/// Stores the name slot of a frozen font identifier.
pub fn set_font_id_text(hash: &mut Array<TwoHalves>, n: u16, value: u16)
    requires
        old(hash).wf(),
        old(hash).spec_min() <= FONT_ID_BASE + n <= old(hash).spec_max(),
    ensures
        final(hash).wf(),
        final(hash).spec_min() == old(hash).spec_min(),
        final(hash).spec_max() == old(hash).spec_max(),
        final(hash).spec_index(FONT_ID_BASE + n as int).spec_lh() == value,
        final(hash).spec_index(FONT_ID_BASE + n as int).spec_rh() == old(hash).spec_index(
            FONT_ID_BASE + n as int,
        ).spec_rh(),
        forall|j: int|
            old(hash).spec_min() <= j <= old(hash).spec_max() && j != FONT_ID_BASE + n as int
                ==> final(hash).spec_index(j) == old(hash).spec_index(j),
{
    let mut slot = hash.get(FONT_ID_BASE as usize + n as usize);
    slot.set_lh(value);
    hash.set(FONT_ID_BASE as usize + n as usize, slot);
}

} // verus!
