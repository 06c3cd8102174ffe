//! The group/save stack: nested dynamic scoping over the equivalence table.
//!
//! The stack holds boundary markers and restoration entries.  Entering a
//! group pushes one boundary marker and deepens the current level; a scoped
//! write saves a location's entry at most once per group (only when the
//! location is about to be overwritten at the deeper level) and then writes
//! at the current level; leaving a group pops entries down to and including
//! the most recent boundary marker, restoring each saved entry in LIFO
//! order, so that only the pre-group state survives.
//!
//! The module states the effect of each operation as a spec-level
//! transition over `EqState`, the mathematical view of the equivalence
//! table, and proves the scoping laws (round trip, save-at-most-once,
//! nesting) from those transitions.

use vstd::prelude::*;
use crate::word::MemoryWord;
use crate::eqtb::{eq_state_wf, EqState, EquivalenceTable, valid_location, LEVEL_ONE};
use crate::TexError;

verus! {

/// Configured capacity of the save stack.
pub const SAVE_SIZE: usize = 600;

/// Largest representable group-nesting level.
pub const MAX_GROUP_LEVEL: u8 = 255;

/// What kind of scope a group was opened for.
#[derive(Clone, Copy, PartialEq, Eq, Structural, Debug)]
pub enum GroupCode {
    BottomLevel,
    SimpleGroup,
    HboxGroup,
    AdjustedHboxGroup,
    VboxGroup,
    VtopGroup,
    AlignGroup,
    NoAlignGroup,
    OutputGroup,
    MathGroup,
    DiscGroup,
    InsertGroup,
    VcenterGroup,
    MathChoiceGroup,
    SemiSimpleGroup,
    MathShiftGroup,
    MathLeftGroup,
}

/// Largest integer code of a group kind.
pub const MAX_GROUP_CODE: u8 = 16;

impl GroupCode {
    pub open spec fn spec_value(&self) -> u8 {
        match self {
            GroupCode::BottomLevel => 0,
            GroupCode::SimpleGroup => 1,
            GroupCode::HboxGroup => 2,
            GroupCode::AdjustedHboxGroup => 3,
            GroupCode::VboxGroup => 4,
            GroupCode::VtopGroup => 5,
            GroupCode::AlignGroup => 6,
            GroupCode::NoAlignGroup => 7,
            GroupCode::OutputGroup => 8,
            GroupCode::MathGroup => 9,
            GroupCode::DiscGroup => 10,
            GroupCode::InsertGroup => 11,
            GroupCode::VcenterGroup => 12,
            GroupCode::MathChoiceGroup => 13,
            GroupCode::SemiSimpleGroup => 14,
            GroupCode::MathShiftGroup => 15,
            GroupCode::MathLeftGroup => 16,
        }
    }

    /// The stable integer code of this group kind.
    #[verifier::when_used_as_spec(spec_value)]
    pub fn value(&self) -> (r: u8)
        ensures
            r == self.spec_value(),
    {
        match self {
            GroupCode::BottomLevel => 0,
            GroupCode::SimpleGroup => 1,
            GroupCode::HboxGroup => 2,
            GroupCode::AdjustedHboxGroup => 3,
            GroupCode::VboxGroup => 4,
            GroupCode::VtopGroup => 5,
            GroupCode::AlignGroup => 6,
            GroupCode::NoAlignGroup => 7,
            GroupCode::OutputGroup => 8,
            GroupCode::MathGroup => 9,
            GroupCode::DiscGroup => 10,
            GroupCode::InsertGroup => 11,
            GroupCode::VcenterGroup => 12,
            GroupCode::MathChoiceGroup => 13,
            GroupCode::SemiSimpleGroup => 14,
            GroupCode::MathShiftGroup => 15,
            GroupCode::MathLeftGroup => 16,
        }
    }

    pub open spec fn spec_from(value: u8) -> GroupCode {
        if value == 0 {
            GroupCode::BottomLevel
        } else if value == 1 {
            GroupCode::SimpleGroup
        } else if value == 2 {
            GroupCode::HboxGroup
        } else if value == 3 {
            GroupCode::AdjustedHboxGroup
        } else if value == 4 {
            GroupCode::VboxGroup
        } else if value == 5 {
            GroupCode::VtopGroup
        } else if value == 6 {
            GroupCode::AlignGroup
        } else if value == 7 {
            GroupCode::NoAlignGroup
        } else if value == 8 {
            GroupCode::OutputGroup
        } else if value == 9 {
            GroupCode::MathGroup
        } else if value == 10 {
            GroupCode::DiscGroup
        } else if value == 11 {
            GroupCode::InsertGroup
        } else if value == 12 {
            GroupCode::VcenterGroup
        } else if value == 13 {
            GroupCode::MathChoiceGroup
        } else if value == 14 {
            GroupCode::SemiSimpleGroup
        } else if value == 15 {
            GroupCode::MathShiftGroup
        } else {
            GroupCode::MathLeftGroup
        }
    }

    /// The group kind with the given integer code.
    pub fn from(value: u8) -> (r: GroupCode)
        requires
            value <= MAX_GROUP_CODE,
        ensures
            r == GroupCode::spec_from(value),
            r.spec_value() == value,
    {
        if value == 0 {
            GroupCode::BottomLevel
        } else if value == 1 {
            GroupCode::SimpleGroup
        } else if value == 2 {
            GroupCode::HboxGroup
        } else if value == 3 {
            GroupCode::AdjustedHboxGroup
        } else if value == 4 {
            GroupCode::VboxGroup
        } else if value == 5 {
            GroupCode::VtopGroup
        } else if value == 6 {
            GroupCode::AlignGroup
        } else if value == 7 {
            GroupCode::NoAlignGroup
        } else if value == 8 {
            GroupCode::OutputGroup
        } else if value == 9 {
            GroupCode::MathGroup
        } else if value == 10 {
            GroupCode::DiscGroup
        } else if value == 11 {
            GroupCode::InsertGroup
        } else if value == 12 {
            GroupCode::VcenterGroup
        } else if value == 13 {
            GroupCode::MathChoiceGroup
        } else if value == 14 {
            GroupCode::SemiSimpleGroup
        } else if value == 15 {
            GroupCode::MathShiftGroup
        } else {
            GroupCode::MathLeftGroup
        }
    }
}

/// One record of the save stack: either the boundary marker of a group
/// (remembering the enclosing group's code) or a restoration entry holding
/// a location's saved level and cell.
#[derive(Clone, Copy, PartialEq, Eq, Structural, Debug)]
pub enum SaveRecord {
    Boundary { group: GroupCode },
    Restore { loc: u16, level: u8, word: MemoryWord },
}

/// How many boundary markers a stack segment holds.
pub open spec fn boundary_count(s: Seq<SaveRecord>) -> int
    decreases s.len(),
{
    if s.len() == 0 {
        0
    } else {
        boundary_count(s.drop_last()) + if s.last() is Boundary {
            1int
        } else {
            0int
        }
    }
}

/// A restoration entry must address a valid equivalence-table location.
pub open spec fn record_wf(r: SaveRecord) -> bool {
    match r {
        SaveRecord::Boundary { .. } => true,
        SaveRecord::Restore { loc, .. } => valid_location(loc as int),
    }
}

/// Every restoration entry addresses a valid equivalence-table location.
pub open spec fn records_wf(s: Seq<SaveRecord>) -> bool {
    forall|i: int| 0 <= i < s.len() ==> record_wf(#[trigger] s[i])
}

/// The equivalence-table state after restoring one saved entry.
pub open spec fn eq_restore(eq: EqState, loc: int, level: u8, word: MemoryWord) -> EqState {
    EqState { words: eq.words.insert(loc, word), levels: eq.levels.insert(loc, level) }
}

/// The model of entering a group: one boundary marker is pushed and the
/// current level deepens by one.
pub open spec fn enter_group_model(
    s: Seq<SaveRecord>,
    cur_level: u8,
    cur_group: GroupCode,
    group: GroupCode,
) -> (Seq<SaveRecord>, u8, GroupCode) {
    (s.push(SaveRecord::Boundary { group: cur_group }), (cur_level + 1) as u8, group)
}

/// The model of a scoped write: the location's entry is saved if and only
/// if its level is shallower than the current level, and the location is
/// then overwritten at the current level.
pub open spec fn scoped_write_model(
    s: Seq<SaveRecord>,
    cur_level: u8,
    eq: EqState,
    loc: u16,
    word: MemoryWord,
) -> (Seq<SaveRecord>, EqState) {
    let saved = if eq.levels[loc as int] < cur_level {
        s.push(
            SaveRecord::Restore {
                loc,
                level: eq.levels[loc as int],
                word: eq.words[loc as int],
            },
        )
    } else {
        s
    };
    (
        saved,
        EqState {
            words: eq.words.insert(loc as int, word),
            levels: eq.levels.insert(loc as int, cur_level),
        },
    )
}

/// The model of leaving a group: entries are popped and restored in LIFO
/// order down to and including the most recent boundary marker, whose
/// group code becomes current again.
pub open spec fn unwind_model(eq: EqState, s: Seq<SaveRecord>) -> (EqState, Seq<SaveRecord>, GroupCode)
    decreases s.len(),
{
    if s.len() == 0 {
        (eq, s, GroupCode::BottomLevel)
    } else {
        match s.last() {
            SaveRecord::Boundary { group } => (eq, s.drop_last(), group),
            SaveRecord::Restore { loc, level, word } => unwind_model(
                eq_restore(eq, loc as int, level, word),
                s.drop_last(),
            ),
        }
    }
}

/// Unwinding removes exactly one boundary marker and returns a prefix of
/// the stack whose restoration entries were already present.
pub proof fn lemma_unwind_shape(eq: EqState, s: Seq<SaveRecord>)
    requires
        boundary_count(s) > 0,
    ensures
        boundary_count(unwind_model(eq, s).1) == boundary_count(s) - 1,
        unwind_model(eq, s).1.len() < s.len(),
        records_wf(s) ==> records_wf(unwind_model(eq, s).1),
    decreases s.len(),
{
    lemma_boundary_count_nonneg(s);
    if records_wf(s) {
        assert forall|i: int| 0 <= i < s.drop_last().len() implies record_wf(
            #[trigger] s.drop_last()[i],
        ) by {
            assert(s.drop_last()[i] == s[i]);
        }
    }
    match s.last() {
        SaveRecord::Boundary { group } => {},
        SaveRecord::Restore { loc, level, word } => {
            lemma_unwind_shape(eq_restore(eq, loc as int, level, word), s.drop_last());
        },
    }
}

/// Pushing one record extends the boundary count by exactly that record's
/// contribution and keeps the records well-formed.
pub proof fn lemma_push_record(s: Seq<SaveRecord>, r: SaveRecord)
    ensures
        boundary_count(s.push(r)) == boundary_count(s) + if r is Boundary {
            1int
        } else {
            0int
        },
        records_wf(s) && record_wf(r) ==> records_wf(s.push(r)),
{
    assert(s.push(r).drop_last() =~= s);
    assert(s.push(r).last() == r);
    if records_wf(s) && record_wf(r) {
        assert forall|i: int| 0 <= i < s.push(r).len() implies record_wf(#[trigger] s.push(r)[i]) by {
            if i < s.len() {
                assert(s.push(r)[i] == s[i]);
            }
        }
    }
}

/// A stack segment with a boundary marker is not empty.
pub proof fn lemma_boundary_count_nonneg(s: Seq<SaveRecord>)
    ensures
        boundary_count(s) >= 0,
        boundary_count(s) > 0 ==> s.len() > 0,
    decreases s.len(),
{
    if s.len() > 0 {
        lemma_boundary_count_nonneg(s.drop_last());
    }
}

/// The locations whose restoration entries sit above the most recent
/// boundary marker: exactly the locations already saved in the innermost
/// open group.
pub open spec fn top_saved_locs(s: Seq<SaveRecord>) -> Set<u16>
    decreases s.len(),
{
    if s.len() == 0 {
        Set::<u16>::empty()
    } else {
        match s.last() {
            SaveRecord::Boundary { .. } => Set::<u16>::empty(),
            SaveRecord::Restore { loc, .. } => top_saved_locs(s.drop_last()).insert(loc),
        }
    }
}

/// The save discipline that every reachable stack/table pair obeys: no
/// location is defined deeper than the current level; a location defined
/// exactly at the current level was saved in the innermost open group; and
/// the same holds of every enclosing group once the innermost one is
/// unwound.  A fresh state obeys it (`lemma_discipline_new`) and every
/// operation preserves it (the `lemma_discipline_*` lemmas), so the
/// scoping laws' hypothesis on a location's level holds of every state the
/// operations can reach (`lemma_discipline_level_bound`).
pub open spec fn save_disciplined(eq: EqState, s: Seq<SaveRecord>, level: u8) -> bool
    decreases level,
{
    &&& eq_state_wf(eq)
    &&& forall|loc: int| valid_location(loc) ==> eq.levels[loc] <= level
    &&& level > LEVEL_ONE ==> {
        &&& forall|loc: int|
            valid_location(loc) && eq.levels[loc] == level ==> top_saved_locs(s).contains(
                loc as u16,
            )
        &&& save_disciplined(unwind_model(eq, s).0, unwind_model(eq, s).1, (level - 1) as u8)
    }
}

/// The discipline is bounded: under it, no location's definition level
/// exceeds the current level — the hypothesis the scoping laws take.
pub proof fn lemma_discipline_level_bound(eq: EqState, s: Seq<SaveRecord>, level: u8, loc: u16)
    requires
        save_disciplined(eq, s, level),
        valid_location(loc as int),
    ensures
        eq.levels[loc as int] <= level,
{
}

/// A fresh pairing obeys the discipline: every location at the outermost
/// level, nothing on the stack.
pub proof fn lemma_discipline_new(eq: EqState, s: Seq<SaveRecord>)
    requires
        eq_state_wf(eq),
        forall|loc: int| valid_location(loc) ==> eq.levels[loc] == LEVEL_ONE,
    ensures
        save_disciplined(eq, s, LEVEL_ONE),
{
}

/// Entering a group preserves the discipline: the new group starts with
/// nothing saved, and unwinding it restores the state being left.
pub proof fn lemma_discipline_enter(
    eq: EqState,
    s: Seq<SaveRecord>,
    level: u8,
    cur_group: GroupCode,
    group: GroupCode,
)
    requires
        save_disciplined(eq, s, level),
        level < MAX_GROUP_LEVEL,
    ensures
        ({
            let e = enter_group_model(s, level, cur_group, group);
            save_disciplined(eq, e.0, e.1)
        }),
{
    let e = enter_group_model(s, level, cur_group, group);
    assert(e.0.last() == SaveRecord::Boundary { group: cur_group });
    assert(e.0.drop_last() =~= s);
    assert(unwind_model(eq, e.0) == (eq, s, cur_group));
}

/// Restoring the same saved entry makes two tables that differed only at
/// its location coincide, so unwinding a group that saved the location
/// gives the same result from either table.
proof fn lemma_unwind_independent(
    eq1: EqState,
    eq2: EqState,
    s: Seq<SaveRecord>,
    loc: u16,
    w: MemoryWord,
    l: u8,
)
    requires
        eq2.words == eq1.words.insert(loc as int, w),
        eq2.levels == eq1.levels.insert(loc as int, l),
        top_saved_locs(s).contains(loc),
    ensures
        unwind_model(eq2, s) == unwind_model(eq1, s),
    decreases s.len(),
{
    if s.len() == 0 {
        assert(top_saved_locs(s) =~= Set::<u16>::empty());
    } else {
        match s.last() {
            SaveRecord::Boundary { .. } => {
                assert(top_saved_locs(s) =~= Set::<u16>::empty());
            },
            SaveRecord::Restore { loc: l2, level: lv, word: wd } => {
                let n1 = eq_restore(eq1, l2 as int, lv, wd);
                let n2 = eq_restore(eq2, l2 as int, lv, wd);
                if l2 == loc {
                    // the saved entry overwrites the one differing location
                    assert(n2.words =~= n1.words);
                    assert(n2.levels =~= n1.levels);
                    assert(n2 == n1);
                } else {
                    // the difference persists one step down, where the
                    // location is still among the saved ones
                    assert(n2.words =~= n1.words.insert(loc as int, w));
                    assert(n2.levels =~= n1.levels.insert(loc as int, l));
                    assert(top_saved_locs(s.drop_last()).contains(loc));
                    lemma_unwind_independent(n1, n2, s.drop_last(), loc, w, l);
                }
            },
        }
    }
}

/// A scoped write preserves the discipline: the location either gets saved
/// now (and unwinding undoes the write) or was saved earlier in this group
/// (and unwinding overwrites the new value with the old saved one).
pub proof fn lemma_discipline_write(
    eq: EqState,
    s: Seq<SaveRecord>,
    level: u8,
    loc: u16,
    w: MemoryWord,
)
    requires
        save_disciplined(eq, s, level),
        valid_location(loc as int),
    ensures
        ({
            let m = scoped_write_model(s, level, eq, loc, w);
            save_disciplined(m.1, m.0, level)
        }),
{
    let m = scoped_write_model(s, level, eq, loc, w);
    assert(eq_state_wf(m.1)) by {
        assert(forall|x: int|
            valid_location(x) ==> #[trigger] m.1.words.dom().contains(x) && m.1.levels.dom().contains(
                x,
            ));
    }
    if level > LEVEL_ONE {
        if eq.levels[loc as int] < level {
            // the entry just pushed leads the unwind back to the old table
            let saved = SaveRecord::Restore {
                loc,
                level: eq.levels[loc as int],
                word: eq.words[loc as int],
            };
            assert(m.0.last() == saved);
            assert(m.0.drop_last() =~= s);
            let stepped = eq_restore(m.1, loc as int, eq.levels[loc as int], eq.words[loc as int]);
            assert(stepped.words =~= eq.words);
            assert(stepped.levels =~= eq.levels);
            assert(stepped == eq);
            assert(unwind_model(m.1, m.0) == unwind_model(eq, s));
            assert(top_saved_locs(m.0) == top_saved_locs(s).insert(loc));
        } else {
            // saved earlier in this group: the unwind result ignores the
            // location's current value
            assert(eq.levels[loc as int] == level);
            assert(top_saved_locs(s).contains(loc));
            assert(m.0 == s);
            lemma_unwind_independent(eq, m.1, s, loc, w, level);
            assert(unwind_model(m.1, m.0) == unwind_model(eq, s));
        }
    }
}

/// Leaving a group preserves the discipline: the enclosing pairing is
/// exactly the unwound one, of which the discipline already speaks.
pub proof fn lemma_discipline_leave(eq: EqState, s: Seq<SaveRecord>, level: u8)
    requires
        save_disciplined(eq, s, level),
        level > LEVEL_ONE,
    ensures
        ({
            let u = unwind_model(eq, s);
            save_disciplined(u.0, u.1, (level - 1) as u8)
        }),
{
}

/// Law: a scoped write inside a group is undone exactly by leaving the
/// group.  For any table state, any stack, any location and any values,
/// entering a group, writing the location, and leaving the group restores
/// the location's cell and level — and the whole table, the stack, and the
/// current group — to their pre-group state.  The hypothesis that the
/// location's level does not exceed the current level is the save
/// discipline, which holds of every reachable state
/// (`lemma_discipline_new` and the other `lemma_discipline_*` lemmas) and
/// follows from it by `lemma_discipline_level_bound`.
pub proof fn lemma_save_restore_round_trip(
    s: Seq<SaveRecord>,
    cur_level: u8,
    cur_group: GroupCode,
    eq: EqState,
    group: GroupCode,
    loc: u16,
    value: MemoryWord,
)
    requires
        eq_state_wf(eq),
        valid_location(loc as int),
        eq.levels[loc as int] <= cur_level,
        cur_level < MAX_GROUP_LEVEL,
    ensures
        ({
            let e = enter_group_model(s, cur_level, cur_group, group);
            let m = scoped_write_model(e.0, e.1, eq, loc, value);
            let u = unwind_model(m.1, m.0);
            &&& u.0.words == eq.words
            &&& u.0.levels == eq.levels
            &&& u.1 == s
            &&& u.2 == cur_group
        }),
{
    let e = enter_group_model(s, cur_level, cur_group, group);
    let m = scoped_write_model(e.0, e.1, eq, loc, value);
    let u = unwind_model(m.1, m.0);
    let saved = SaveRecord::Restore { loc, level: eq.levels[loc as int], word: eq.words[loc as int] };
    assert(m.0.last() == saved);
    assert(m.0.drop_last() =~= e.0);
    let mid = eq_restore(m.1, loc as int, eq.levels[loc as int], eq.words[loc as int]);
    assert(u == unwind_model(mid, e.0));
    assert(e.0.last() == SaveRecord::Boundary { group: cur_group });
    assert(e.0.drop_last() =~= s);
    assert(u.0.words =~= eq.words);
    assert(u.0.levels =~= eq.levels);
}

/// Law: a location is saved at most once per group.  Writing the same
/// location twice inside one group pushes only one restoration entry, and
/// leaving the group restores the pre-group value, not the first of the
/// two written values.  The level hypothesis is the maintained save
/// discipline, as for the round-trip law.
pub proof fn lemma_save_at_most_once(
    s: Seq<SaveRecord>,
    cur_level: u8,
    cur_group: GroupCode,
    eq: EqState,
    group: GroupCode,
    loc: u16,
    v1: MemoryWord,
    v2: MemoryWord,
)
    requires
        eq_state_wf(eq),
        valid_location(loc as int),
        eq.levels[loc as int] <= cur_level,
        cur_level < MAX_GROUP_LEVEL,
    ensures
        ({
            let e = enter_group_model(s, cur_level, cur_group, group);
            let m1 = scoped_write_model(e.0, e.1, eq, loc, v1);
            let m2 = scoped_write_model(m1.0, e.1, m1.1, loc, v2);
            let u = unwind_model(m2.1, m2.0);
            &&& m2.0 == m1.0
            &&& u.0.words == eq.words
            &&& u.0.levels == eq.levels
            &&& u.1 == s
            &&& u.2 == cur_group
        }),
{
    let e = enter_group_model(s, cur_level, cur_group, group);
    let m1 = scoped_write_model(e.0, e.1, eq, loc, v1);
    let m2 = scoped_write_model(m1.0, e.1, m1.1, loc, v2);
    let u = unwind_model(m2.1, m2.0);
    assert(m1.1.levels[loc as int] == e.1);
    let saved = SaveRecord::Restore { loc, level: eq.levels[loc as int], word: eq.words[loc as int] };
    assert(m2.0.last() == saved);
    assert(m2.0.drop_last() =~= e.0);
    let mid = eq_restore(m2.1, loc as int, eq.levels[loc as int], eq.words[loc as int]);
    assert(u == unwind_model(mid, e.0));
    assert(e.0.last() == SaveRecord::Boundary { group: cur_group });
    assert(e.0.drop_last() =~= s);
    assert(u.0.words =~= eq.words);
    assert(u.0.levels =~= eq.levels);
}

/// Law: leaving an inner group does not roll back what an outer group set.
/// After writing a location in an outer group, entering an inner group,
/// writing it again, and leaving only the inner group, the location holds
/// the outer group's value at the outer group's level, and the enclosing
/// group becomes current again.  The level hypothesis is the maintained
/// save discipline, as for the round-trip law.
pub proof fn lemma_nested_groups(
    s: Seq<SaveRecord>,
    cur_level: u8,
    cur_group: GroupCode,
    eq: EqState,
    g1: GroupCode,
    g2: GroupCode,
    loc: u16,
    v1: MemoryWord,
    v2: MemoryWord,
)
    requires
        eq_state_wf(eq),
        valid_location(loc as int),
        eq.levels[loc as int] <= cur_level,
        cur_level + 1 < MAX_GROUP_LEVEL,
    ensures
        ({
            let e1 = enter_group_model(s, cur_level, cur_group, g1);
            let m1 = scoped_write_model(e1.0, e1.1, eq, loc, v1);
            let e2 = enter_group_model(m1.0, e1.1, e1.2, g2);
            let m2 = scoped_write_model(e2.0, e2.1, m1.1, loc, v2);
            let u = unwind_model(m2.1, m2.0);
            &&& u.0.words[loc as int] == v1
            &&& u.0.levels[loc as int] == e1.1
            &&& u.0.words == m1.1.words
            &&& u.0.levels == m1.1.levels
            &&& u.1 == m1.0
            &&& u.2 == g1
        }),
{
    let e1 = enter_group_model(s, cur_level, cur_group, g1);
    let m1 = scoped_write_model(e1.0, e1.1, eq, loc, v1);
    let e2 = enter_group_model(m1.0, e1.1, e1.2, g2);
    let m2 = scoped_write_model(e2.0, e2.1, m1.1, loc, v2);
    let u = unwind_model(m2.1, m2.0);
    assert(m1.1.levels[loc as int] == e1.1);
    assert(m1.1.levels[loc as int] < e2.1);
    let saved = SaveRecord::Restore { loc, level: e1.1, word: v1 };
    assert(m1.1.words[loc as int] == v1);
    assert(m2.0.last() == saved);
    assert(m2.0.drop_last() =~= e2.0);
    let mid = eq_restore(m2.1, loc as int, e1.1, v1);
    assert(u == unwind_model(mid, e2.0));
    assert(e2.0.last() == SaveRecord::Boundary { group: e1.2 });
    assert(e2.0.drop_last() =~= m1.0);
    assert(u.0.words =~= m1.1.words);
    assert(u.0.levels =~= m1.1.levels);
}

/// The group/save stack, together with the current level and group.
pub struct SaveStack {
    save_stack: Vec<SaveRecord>,
    cur_level: u8,
    cur_group: GroupCode,
}

impl SaveStack {
    /// The stack contents, oldest record first.
    pub closed spec fn records(&self) -> Seq<SaveRecord> {
        self.save_stack@
    }

    /// The current group-nesting level.
    pub closed spec fn level(&self) -> u8 {
        self.cur_level
    }

    /// The code of the innermost open group.
    pub closed spec fn group(&self) -> GroupCode {
        self.cur_group
    }

    pub open spec fn wf(&self) -> bool {
        &&& self.level() >= LEVEL_ONE
        &&& boundary_count(self.records()) == self.level() - LEVEL_ONE
        &&& records_wf(self.records())
    }

    /// A fresh stack: depth zero, outermost level, bottom-level group.
    pub fn new() -> (r: SaveStack)
        ensures
            r.wf(),
            r.records() == Seq::<SaveRecord>::empty(),
            r.level() == LEVEL_ONE,
            r.group() == GroupCode::BottomLevel,
    {
        SaveStack {
            save_stack: Vec::new(),
            cur_level: LEVEL_ONE,
            cur_group: GroupCode::BottomLevel,
        }
    }

    /// The current group-nesting level.
    pub fn current_level(&self) -> (r: u8)
        ensures
            r == self.level(),
    {
        self.cur_level
    }

    /// The code of the innermost open group.
    pub fn current_group(&self) -> (r: GroupCode)
        ensures
            r == self.group(),
    {
        self.cur_group
    }

    /// How many records the stack holds.
    pub fn depth(&self) -> (r: usize)
        ensures
            r == self.records().len(),
    {
        self.save_stack.len()
    }

    /// Opens a new group: pushes a boundary marker remembering the current
    /// group and deepens the level.  Fails with `SaveStackOverflow`, and
    /// changes nothing, when the stack or the level is at its ceiling.
    pub fn enter_group(&mut self, group: GroupCode) -> (r: Result<(), TexError>)
        requires
            old(self).wf(),
        ensures
            final(self).wf(),
            old(self).records().len() < SAVE_SIZE && old(self).level() < MAX_GROUP_LEVEL ==> {
                let e = enter_group_model(
                    old(self).records(),
                    old(self).level(),
                    old(self).group(),
                    group,
                );
                &&& r == Ok::<(), TexError>(())
                &&& final(self).records() == e.0
                &&& final(self).level() == e.1
                &&& final(self).group() == e.2
            },
            !(old(self).records().len() < SAVE_SIZE && old(self).level() < MAX_GROUP_LEVEL) ==> {
                &&& r == Err::<(), TexError>(TexError::SaveStackOverflow)
                &&& *final(self) == *old(self)
            },
    {
        if self.save_stack.len() >= SAVE_SIZE || self.cur_level >= MAX_GROUP_LEVEL {
            return Err(TexError::SaveStackOverflow);
        }
        let ghost pre = self.save_stack@;
        self.save_stack.push(SaveRecord::Boundary { group: self.cur_group });
        proof {
            lemma_push_record(pre, SaveRecord::Boundary { group: old(self).group() });
        }
        self.cur_level = self.cur_level + 1;
        self.cur_group = group;
        Ok(())
    }

    /// Saves `loc`'s current entry for restoration, but only when its
    /// definition level is shallower than the current level: a location is
    /// saved at most once per group.  Fails with `SaveStackOverflow`, and
    /// changes nothing, when a save is needed and the stack is full.
    pub fn save(&mut self, eq: &EquivalenceTable, loc: u16) -> (r: Result<(), TexError>)
        requires
            old(self).wf(),
            eq.wf(),
            valid_location(loc as int),
        ensures
            final(self).wf(),
            final(self).level() == old(self).level(),
            final(self).group() == old(self).group(),
            eq.level_at(loc as int) >= old(self).level() ==> r == Ok::<(), TexError>(())
                && final(self).records() == old(self).records(),
            eq.level_at(loc as int) < old(self).level() && old(self).records().len() < SAVE_SIZE
                ==> r == Ok::<(), TexError>(()) && final(self).records() == old(
                self,
            ).records().push(
                SaveRecord::Restore {
                    loc,
                    level: eq.level_at(loc as int),
                    word: eq.word_at(loc as int),
                },
            ),
            eq.level_at(loc as int) < old(self).level() && old(self).records().len() >= SAVE_SIZE
                ==> r == Err::<(), TexError>(TexError::SaveStackOverflow) && *final(self) == *old(
                self,
            ),
    {
        let entry_level = eq.level_read(loc);
        if entry_level >= self.cur_level {
            return Ok(());
        }
        if self.save_stack.len() >= SAVE_SIZE {
            return Err(TexError::SaveStackOverflow);
        }
        let word = eq.word_read(loc);
        let ghost pre = self.save_stack@;
        self.save_stack.push(SaveRecord::Restore { loc, level: entry_level, word });
        proof {
            lemma_push_record(pre, SaveRecord::Restore { loc, level: entry_level, word });
        }
        Ok(())
    }

    /// A scoped write: saves `loc` (at most once per group) and then writes
    /// the cell at the current level.  Fails with `InvalidLocation` for a
    /// location outside the table, and with `SaveStackOverflow` when a save
    /// is needed and the stack is full; on failure nothing changes.
    pub fn write_scoped(
        &mut self,
        eq: &mut EquivalenceTable,
        loc: u16,
        word: MemoryWord,
    ) -> (r: Result<(), TexError>)
        requires
            old(self).wf(),
            old(eq).wf(),
        ensures
            final(self).wf(),
            final(eq).wf(),
            final(self).level() == old(self).level(),
            final(self).group() == old(self).group(),
            !valid_location(loc as int) ==> r == Err::<(), TexError>(TexError::InvalidLocation)
                && *final(self) == *old(self) && *final(eq) == *old(eq),
            valid_location(loc as int) && old(eq).level_at(loc as int) < old(self).level()
                && old(self).records().len() >= SAVE_SIZE ==> r == Err::<(), TexError>(
                TexError::SaveStackOverflow,
            ) && *final(self) == *old(self) && *final(eq) == *old(eq),
            valid_location(loc as int) && (old(eq).level_at(loc as int) >= old(self).level()
                || old(self).records().len() < SAVE_SIZE) ==> {
                let m = scoped_write_model(
                    old(self).records(),
                    old(self).level(),
                    old(eq).model(),
                    loc,
                    word,
                );
                &&& r == Ok::<(), TexError>(())
                &&& final(self).records() == m.0
                &&& final(eq).model() == m.1
            },
    {
        if loc < crate::eqtb::ACTIVE_BASE || loc > crate::eqtb::EQTB_SIZE {
            return Err(TexError::InvalidLocation);
        }
        let r = self.save(eq, loc);
        if let Err(e) = r {
            return Err(e);
        }
        eq.word_write(loc, word);
        eq.level_write(loc, self.cur_level);
        proof {
            let m = scoped_write_model(
                old(self).records(),
                old(self).level(),
                old(eq).model(),
                loc,
                word,
            );
            assert(eq.model().words =~= m.1.words);
            assert(eq.model().levels =~= m.1.levels);
        }
        Ok(())
    }

    /// Closes the innermost group: pops and restores every entry above the
    /// most recent boundary marker, in LIFO order, then removes the marker,
    /// shallows the level, and makes the enclosing group current again.
    /// Returns the code of the group that was closed.  At the outermost
    /// level there is no group to close: fails with `UnbalancedGroup` and
    /// changes nothing.
    pub fn leave_group(&mut self, eq: &mut EquivalenceTable) -> (r: Result<GroupCode, TexError>)
        requires
            old(self).wf(),
            old(eq).wf(),
        ensures
            final(self).wf(),
            final(eq).wf(),
            old(self).level() == LEVEL_ONE ==> r == Err::<GroupCode, TexError>(
                TexError::UnbalancedGroup,
            ) && *final(self) == *old(self) && *final(eq) == *old(eq),
            old(self).level() > LEVEL_ONE ==> {
                let u = unwind_model(old(eq).model(), old(self).records());
                &&& r == Ok::<GroupCode, TexError>(old(self).group())
                &&& final(eq).model() == u.0
                &&& final(self).records() == u.1
                &&& final(self).group() == u.2
                &&& final(self).level() == old(self).level() - 1
            },
    {
        if self.cur_level == LEVEL_ONE {
            return Err(TexError::UnbalancedGroup);
        }
        let closed_group = self.cur_group;
        let ghost orig_records = self.records();
        let ghost orig_level = self.level();
        let ghost orig_group = self.group();
        let ghost target = unwind_model(eq.model(), self.records());
        proof {
            lemma_unwind_shape(eq.model(), self.records());
        }
        let mut done = false;
        while !done
            invariant
                eq.wf(),
                records_wf(self.records()),
                orig_level > LEVEL_ONE,
                target == unwind_model(old(eq).model(), old(self).records()),
                boundary_count(target.1) == orig_level - 1 - LEVEL_ONE,
                records_wf(target.1),
                !done ==> {
                    &&& self.level() == orig_level
                    &&& self.group() == orig_group
                    &&& boundary_count(self.records()) == orig_level - LEVEL_ONE
                    &&& unwind_model(eq.model(), self.records()) == target
                },
                done ==> {
                    &&& eq.model() == target.0
                    &&& self.records() == target.1
                    &&& self.group() == target.2
                    &&& self.level() == orig_level - 1
                },
            decreases self.records().len(),
        {
            proof {
                lemma_boundary_count_nonneg(self.records());
            }
            let ghost pre_records = self.records();
            let ghost pre_model = eq.model();
            let popped = self.save_stack.pop();
            proof {
                assert(self.records() =~= pre_records.drop_last());
            }
            match popped {
                Some(SaveRecord::Boundary { group }) => {
                    self.cur_group = group;
                    self.cur_level = self.cur_level - 1;
                    done = true;
                },
                Some(SaveRecord::Restore { loc, level, word }) => {
                    eq.word_write(loc, word);
                    eq.level_write(loc, level);
                    proof {
                        let stepped = eq_restore(pre_model, loc as int, level, word);
                        assert(eq.model().words =~= stepped.words);
                        assert(eq.model().levels =~= stepped.levels);
                        assert(eq.model() == stepped);
                        assert(unwind_model(pre_model, pre_records) == unwind_model(
                            eq.model(),
                            self.records(),
                        ));
                    }
                },
                None => {
                    proof {
                        assert(false);
                    }
                },
            }
        }
        Ok(closed_group)
    }
}

} // verus!
