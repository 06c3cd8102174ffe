//! The engine state: one owned aggregate holding the node arena, the
//! equivalence table, the group/save stack, and the control-sequence
//! table, together with the scalar state the surrounding engine reads and
//! writes.  One instance per running engine; nothing here is global, so
//! independent instances can coexist.

use vstd::prelude::*;
use crate::arena::{NodeArena, CONTRIB_HEAD, MEM_BOT, MEM_MAX, MEM_MIN, MEM_TOP, NULL, PAGE_HEAD};
use crate::array::Array;
use crate::eqtb::{
    valid_location, EquivalenceTable, ACTIVE_BASE, DIMEN_BASE, EQTB_SIZE, FONT_BASE, HASH_PRIME,
    HASH_SIZE, INT_BASE, LEVEL_ONE, PAR_INDENT_CODE, SCALED_BASE, UNDEFINED_CONTROL_SEQUENCE,
};
use crate::TexError;
use crate::hash::ControlSeqTable;
use crate::save::{GroupCode, SaveStack};
use crate::word::{MemoryWord, MAX_HALF_WORD, MAX_QUARTER_WORD, MIN_HALF_WORD, MIN_QUARTER_WORD};

verus! {

/// A dimension in scaled points.
pub type Scaled = i32;

/// A pointer into the node arena.
pub type Pointer = u16;

/// A reference into the string table.
pub type StrNumber = i32;

/// An order of infinity for glue stretching or shrinking.
pub type GlueOrd = i32;

// Configuration constants of the engine.
pub const BUF_SIZE: i32 = 500;
pub const ERROR_LINE: i32 = 72;
pub const HALF_ERROR_LINE: i32 = 42;
pub const MAX_PRINT_LINE: i32 = 79;
pub const STACK_SIZE: i32 = 200;
pub const MAX_IN_OPEN: i32 = 6;
pub const FONT_MAX: i32 = 75;
pub const FONT_MEM_SIZE: i32 = 20000;
pub const PARAM_SIZE: i32 = 60;
pub const NEST_SIZE: usize = 40;
pub const MAX_STRINGS: i32 = 3000;
pub const STRING_VACANCIES: i32 = 8000;
pub const POOL_SIZE: i32 = 32000;
pub const SAVE_SIZE_LIMIT: i32 = 600;
pub const TRIE_SIZE: i32 = 8000;
pub const TRIE_OP_SIZE: i32 = 500;
pub const DVI_BUF_SIZE: i32 = 800;
pub const FILE_NAME_SIZE: i32 = 40;
pub const HYPH_SIZE: i32 = 307;
pub const FORMAT_DEFAULT_LENGTH: i32 = 9;

/// Scaled-point representation of one unit.
pub const UNITY: i32 = 0o200000;
pub const TWO: i32 = 0o400000;

// Node layout: field positions are fixed offsets from a node's base
// address, not separate record types, so every list can be walked by the
// link field alone.
pub const HLIST_NODE: u8 = 0;
pub const BOX_NODE_SIZE: u16 = 7;
pub const WIDTH_OFFSET: u16 = 1;
pub const DEPTH_OFFSET: u16 = 2;
pub const HEIGHT_OFFSET: u16 = 3;
pub const SHIFT_OFFSET: u16 = 4;
pub const LIST_OFFSET: u16 = 5;
pub const GLUE_OFFSET: u16 = 6;

// Glue setting.
pub const NORMAL: i32 = 0;
pub const STRETCHING: i32 = 1;
pub const SHRINKING: i32 = 2;
pub const FIL: i32 = 1;
pub const FILL: i32 = 2;
pub const FILLL: i32 = 3;

// The levels of value a numeric scanner can return.
pub const INT_VAL: i32 = 0;
pub const DIMEN_VAL: i32 = 1;
pub const GLUE_VAL: i32 = 2;
pub const MU_VAL: i32 = 3;
pub const IDENT_VAL: i32 = 4;
pub const TOK_VAL: i32 = 5;

// The marks the page builder keeps.
pub const TOP_MARK_CODE: usize = 0;
pub const FIRST_MARK_CODE: usize = 1;
pub const BOT_MARK_CODE: usize = 2;
pub const SPLIT_FIRST_MARK_CODE: usize = 3;
pub const SPLIT_BOT_MARK_CODE: usize = 4;

/// Symbolic name for a null constant.
pub const EMPTY: i32 = 0;

/// The banner line printed when the engine starts.
pub fn banner() -> (r: &'static str) {
    "This is TeX, Version 3.1415926"
}

/// The character-output translation table: every printable character
/// stands for itself, everything else prints as a space.
fn ascii_print_table() -> (r: Vec<u8>)
    ensures
        r@.len() == 256,
        forall|j: int|
            0 <= j < 256 ==> r@[j] == (if 32 <= j <= 126 {
                j as u8
            } else {
                32u8
            }),
{
    let mut t: Vec<u8> = Vec::new();
    let mut i: usize = 0;
    while i < 256
        invariant
            i <= 256,
            t@.len() == i,
            forall|j: int|
                0 <= j < i ==> t@[j] == (if 32 <= j <= 126 {
                    j as u8
                } else {
                    32u8
                }),
        decreases 256 - i,
    {
        if 32 <= i && i <= 126 {
            t.push(i as u8);
        } else {
            t.push(32);
        }
        i = i + 1;
    }
    t
}

/// The character-input translation table: every printable character reads
/// back as itself, everything else as the invalid code.
fn ascii_read_table() -> (r: Vec<u8>)
    ensures
        r@.len() == 256,
        forall|j: int|
            0 <= j < 256 ==> r@[j] == (if 32 <= j <= 126 {
                j as u8
            } else {
                127u8
            }),
{
    let mut t: Vec<u8> = Vec::new();
    let mut i: usize = 0;
    while i < 256
        invariant
            i <= 256,
            t@.len() == i,
            forall|j: int|
                0 <= j < i ==> t@[j] == (if 32 <= j <= 126 {
                    j as u8
                } else {
                    127u8
                }),
        decreases 256 - i,
    {
        if 32 <= i && i <= 126 {
            t.push(i as u8);
        } else {
            t.push(127);
        }
        i = i + 1;
    }
    t
}

/// How the engine interacts with a user when an error occurs.
#[derive(Clone, Copy, PartialEq, Eq, Structural, Debug)]
pub enum Interaction {
    BatchMode,
    NonstopMode,
    ScrollMode,
    ErrorStopMode,
}

impl Interaction {
    pub open spec fn spec_value(&self) -> i32 {
        match self {
            Interaction::BatchMode => 0,
            Interaction::NonstopMode => 1,
            Interaction::ScrollMode => 2,
            Interaction::ErrorStopMode => 3,
        }
    }

    #[verifier::when_used_as_spec(spec_value)]
    pub fn value(&self) -> (r: i32)
        ensures
            r == self.spec_value(),
    {
        match self {
            Interaction::BatchMode => 0,
            Interaction::NonstopMode => 1,
            Interaction::ScrollMode => 2,
            Interaction::ErrorStopMode => 3,
        }
    }
}

/// The worst trouble the run has seen so far.
#[derive(Clone, Copy, PartialEq, Eq, Structural, Debug)]
pub enum History {
    Spotless,
    WarningIssued,
    ErrorMessageIssued,
    FatalErrorStop,
}

impl History {
    pub open spec fn spec_value(&self) -> i32 {
        match self {
            History::Spotless => 0,
            History::WarningIssued => 1,
            History::ErrorMessageIssued => 2,
            History::FatalErrorStop => 3,
        }
    }

    #[verifier::when_used_as_spec(spec_value)]
    pub fn value(&self) -> (r: i32)
        ensures
            r == self.spec_value(),
    {
        match self {
            History::Spotless => 0,
            History::WarningIssued => 1,
            History::ErrorMessageIssued => 2,
            History::FatalErrorStop => 3,
        }
    }
}

/// The fixed token codes: a token packs a command code times 256 plus a
/// character, and these are the boundaries the scanners compare against.
#[derive(Clone, Copy, PartialEq, Eq, Structural, Debug)]
pub enum TokenList {
    CsTokenFlag,
    LeftBraceToken,
    LeftBraceLimit,
    RightBraceToken,
    RightBraceLimit,
    MathShiftToken,
    TabToken,
    OutParamToken,
    SpaceToken,
    LetterToken,
    OtherToken,
    MatchToken,
    EndMatchToken,
}

impl TokenList {
    pub open spec fn spec_value(&self) -> i32 {
        match self {
            TokenList::CsTokenFlag => 0o7777,
            TokenList::LeftBraceToken => 0o400,
            TokenList::LeftBraceLimit => 0o1000,
            TokenList::RightBraceToken => 0o1000,
            TokenList::RightBraceLimit => 0o1400,
            TokenList::MathShiftToken => 0o1400,
            TokenList::TabToken => 0o2000,
            TokenList::OutParamToken => 0o2400,
            TokenList::SpaceToken => 0o5040,
            TokenList::LetterToken => 0o5400,
            TokenList::OtherToken => 0o6000,
            TokenList::MatchToken => 0o6400,
            TokenList::EndMatchToken => 0o7000,
        }
    }

    #[verifier::when_used_as_spec(spec_value)]
    pub fn value(&self) -> (r: i32)
        ensures
            r == self.spec_value(),
    {
        match self {
            TokenList::CsTokenFlag => 0o7777,
            TokenList::LeftBraceToken => 0o400,
            TokenList::LeftBraceLimit => 0o1000,
            TokenList::RightBraceToken => 0o1000,
            TokenList::RightBraceLimit => 0o1400,
            TokenList::MathShiftToken => 0o1400,
            TokenList::TabToken => 0o2000,
            TokenList::OutParamToken => 0o2400,
            TokenList::SpaceToken => 0o5040,
            TokenList::LetterToken => 0o5400,
            TokenList::OtherToken => 0o6000,
            TokenList::MatchToken => 0o6400,
            TokenList::EndMatchToken => 0o7000,
        }
    }
}

/// One semantic nest entry: the state of the list being built.
#[derive(Clone, Copy, PartialEq, Eq, Structural, Debug)]
pub struct ListStateRecord {
    pub mode_field: i32,
    pub head_field: u16,
    pub tail_field: u16,
    pub pg_field: i32,
    pub ml_field: i32,
    pub aux_field: MemoryWord,
}

impl ListStateRecord {
    /// A record with every field zero.
    pub fn new() -> (r: ListStateRecord)
        ensures
            r == (ListStateRecord {
                mode_field: 0,
                head_field: 0,
                tail_field: 0,
                pg_field: 0,
                ml_field: 0,
                aux_field: MemoryWord { b0: 0, b1: 0, b2: 0, b3: 0 },
            }),
    {
        ListStateRecord {
            mode_field: 0,
            head_field: 0,
            tail_field: 0,
            pg_field: 0,
            ml_field: 0,
            aux_field: MemoryWord { b0: 0, b1: 0, b2: 0, b3: 0 },
        }
    }
}

impl Default for ListStateRecord {
    fn default() -> (r: Self)
        ensures
            r == (ListStateRecord {
                mode_field: 0,
                head_field: 0,
                tail_field: 0,
                pg_field: 0,
                ml_field: 0,
                aux_field: MemoryWord { b0: 0, b1: 0, b2: 0, b3: 0 },
            }),
    {
        ListStateRecord {
            mode_field: 0,
            head_field: 0,
            tail_field: 0,
            pg_field: 0,
            ml_field: 0,
            aux_field: MemoryWord { b0: 0, b1: 0, b2: 0, b3: 0 },
        }
    }
}

/// The whole engine state.
pub struct TexState {
    pub ready_already: i32,
    // character translation
    pub xord: Vec<u8>,
    pub xchr: Vec<u8>,
    // error handling
    pub deletions_allowed: bool,
    pub set_box_allowed: bool,
    pub history: History,
    pub error_count: i32,
    pub helpline: Vec<StrNumber>,
    pub help_ptr: u8,
    pub use_err_help: bool,
    // interrupts
    pub interrupt: i32,
    pub ok_to_interrupt: bool,
    pub interaction: Interaction,
    // the dynamic store
    pub arena: NodeArena,
    // diagnostic snapshots
    pub was_mem_end: u16,
    pub was_lo_max: u16,
    pub was_hi_min: u16,
    pub panicking: bool,
    // semantic nest
    pub nest: Vec<ListStateRecord>,
    pub nest_ptr: usize,
    pub max_nest_stack: usize,
    pub curlist: ListStateRecord,
    pub shown_mode: i32,
    // meanings and scoping
    pub eqtb: EquivalenceTable,
    pub saves: SaveStack,
    // control sequences
    pub hash: ControlSeqTable,
    pub hash_used: Pointer,
    pub no_new_control_sequence: bool,
    pub cs_count: i32,
    // magnification
    pub mag_set: i32,
    // marks
    pub cur_mark: Array<Pointer>,
    // numeric scanners
    pub cur_val: i32,
    pub cur_val_level: i32,
    pub radix: i32,
    pub cur_order: GlueOrd,
    // page builder
    pub page_tail: u16,
    pub page_contents: u8,
    pub page_max_depth: Scaled,
    pub best_page_break: u16,
    pub least_page_cost: i32,
    pub best_size: Scaled,
    pub page_so_far: Array<Scaled>,
    pub last_glue: u16,
    pub last_penalty: i32,
    pub last_kern: Scaled,
    pub insert_penalties: i32,
}

impl TexState {
    pub open spec fn wf(&self) -> bool {
        &&& self.arena.wf()
        &&& self.eqtb.wf()
        &&& self.saves.wf()
        &&& self.hash.wf()
        &&& self.xord@.len() == 256
        &&& self.xchr@.len() == 256
        &&& self.helpline@.len() == 6
        &&& self.nest@.len() == NEST_SIZE
        &&& self.cur_mark.wf()
        &&& self.cur_mark.spec_min() == TOP_MARK_CODE
        &&& self.cur_mark.spec_max() == SPLIT_BOT_MARK_CODE
        &&& self.page_so_far.wf()
        &&& self.page_so_far.spec_min() == 0
        &&& self.page_so_far.spec_max() == 7
    }

    /// A fresh engine state with every component at its configured
    /// starting value.
    pub fn new() -> (r: TexState)
        ensures
            r.wf(),
            r.ready_already == 0,
            r.history == History::FatalErrorStop,
            r.interaction == Interaction::BatchMode,
            !r.deletions_allowed,
            !r.set_box_allowed,
            r.error_count == 0,
            r.help_ptr == 0,
            !r.use_err_help,
            r.interrupt == 0,
            !r.ok_to_interrupt,
            r.arena.lo_max() == crate::arena::LO_MEM_STAT_MAX,
            r.arena.hi_min() == crate::arena::HI_MEM_STAT_MIN,
            r.arena.free_list() == Seq::<(u16, u16)>::empty(),
            r.arena.avail_list() == Seq::<u16>::empty(),
            forall|a: int|
                0 <= a <= MEM_MAX ==> r.arena.cells()[a] == (MemoryWord {
                    b0: 0,
                    b1: 0,
                    b2: 0,
                    b3: 0,
                }),
            forall|loc: int|
                valid_location(loc) ==> r.eqtb.word_at(loc) == (MemoryWord {
                    b0: 0,
                    b1: 0,
                    b2: 0,
                    b3: 0,
                }),
            forall|k: int| 0 <= k < HASH_SIZE ==> r.hash.slots()[k] is None,
            r.hash.text_at(crate::eqtb::FROZEN_RELAX as int) == Some(
                seq![114u8, 101u8, 108u8, 97u8, 120u8],
            ),
            r.hash.text_at(crate::eqtb::FROZEN_NULL_FONT as int) == Some(
                seq![110u8, 117u8, 108u8, 108u8, 102u8, 111u8, 110u8, 116u8],
            ),
            r.nest_ptr == 0,
            r.max_nest_stack == 0,
            r.curlist == (ListStateRecord {
                mode_field: 0,
                head_field: 0,
                tail_field: 0,
                pg_field: 0,
                ml_field: 0,
                aux_field: MemoryWord { b0: 0, b1: 0, b2: 0, b3: 0 },
            }),
            r.shown_mode == 0,
            forall|loc: int|
                valid_location(loc) ==> r.eqtb.level_at(loc) == LEVEL_ONE,
            r.hash_used == 0,
            !r.no_new_control_sequence,
            r.cs_count == 0,
            r.saves.level() == LEVEL_ONE,
            r.saves.group() == GroupCode::BottomLevel,
            r.saves.records() == Seq::<crate::save::SaveRecord>::empty(),
            r.mag_set == 0,
            r.cur_val == 0,
            r.cur_val_level == 0,
            r.radix == 0,
            r.cur_order == 0,
            r.page_tail == 0,
            r.page_contents == 0,
            r.last_glue == 0,
            r.last_penalty == 0,
            r.last_kern == 0,
            r.insert_penalties == 0,
    {
        let mut xord: Vec<u8> = Vec::new();
        let mut xchr: Vec<u8> = Vec::new();
        let mut k: usize = 0;
        while k < 256
            invariant
                k <= 256,
                xord@.len() == k,
                xchr@.len() == k,
            decreases 256 - k,
        {
            xord.push(0);
            xchr.push(0);
            k = k + 1;
        }
        let mut helpline: Vec<StrNumber> = Vec::new();
        let mut h: usize = 0;
        while h < 6
            invariant
                h <= 6,
                helpline@.len() == h,
            decreases 6 - h,
        {
            helpline.push(0);
            h = h + 1;
        }
        let mut nest: Vec<ListStateRecord> = Vec::new();
        let mut n: usize = 0;
        while n < NEST_SIZE
            invariant
                n <= NEST_SIZE,
                nest@.len() == n,
            decreases NEST_SIZE - n,
        {
            nest.push(ListStateRecord::new());
            n = n + 1;
        }
        TexState {
            ready_already: 0,
            xord,
            xchr,
            deletions_allowed: false,
            set_box_allowed: false,
            history: History::FatalErrorStop,
            error_count: 0,
            helpline,
            help_ptr: 0,
            use_err_help: false,
            interrupt: 0,
            ok_to_interrupt: false,
            interaction: Interaction::BatchMode,
            arena: NodeArena::new(),
            was_mem_end: 0,
            was_lo_max: 0,
            was_hi_min: 0,
            panicking: false,
            nest,
            nest_ptr: 0,
            max_nest_stack: 0,
            curlist: ListStateRecord::new(),
            shown_mode: 0,
            eqtb: EquivalenceTable::new(),
            saves: SaveStack::new(),
            hash: ControlSeqTable::new(),
            hash_used: 0,
            no_new_control_sequence: false,
            cs_count: 0,
            mag_set: 0,
            cur_mark: Array::new(TOP_MARK_CODE, SPLIT_BOT_MARK_CODE, NULL),
            cur_val: 0,
            cur_val_level: 0,
            radix: 0,
            cur_order: 0,
            page_tail: 0,
            page_contents: 0,
            page_max_depth: 0,
            best_page_break: 0,
            least_page_cost: 0,
            best_size: 0,
            page_so_far: Array::new(0, 7, 0),
            last_glue: 0,
            last_penalty: 0,
            last_kern: 0,
            insert_penalties: 0,
        }
    }

    /// The link half-word of the node at `n`: the pointer to the next node
    /// of whatever list holds it.
    pub fn link(&self, n: usize) -> (r: u16)
        requires
            self.wf(),
            n <= MEM_MAX,
            self.arena.live(n as int),
        ensures
            r == self.arena.cells()[n as int].spec_hh_rh(),
    {
        self.arena.cell(n as u16).hh_rh()
    }

    /// The info half-word of the node at `n`.
    pub fn info(&self, n: usize) -> (r: u16)
        requires
            self.wf(),
            n <= MEM_MAX,
            self.arena.live(n as int),
        ensures
            r == self.arena.cells()[n as int].spec_hh_lh(),
    {
        self.arena.cell(n as u16).hh_lh()
    }

    pub fn set_link(&mut self, n: usize, value: u16)
        requires
            old(self).wf(),
            n <= MEM_MAX,
            old(self).arena.live(n as int),
        ensures
            final(self).wf(),
            final(self).arena.cells()[n as int].spec_hh_rh() == value,
            final(self).arena.cells()[n as int].spec_hh_lh() == old(self).arena.cells()[
                n as int].spec_hh_lh(),
            forall|a: int|
                0 <= a <= MEM_MAX && a != n ==> final(self).arena.cells()[a] == old(
                    self,
                ).arena.cells()[a],
            final(self).arena.live(n as int),
            forall|a: int| old(self).arena.live(a) ==> final(self).arena.live(a),
            final(self).arena.lo_max() == old(self).arena.lo_max(),
            final(self).arena.hi_min() == old(self).arena.hi_min(),
            final(self).arena.end() == old(self).arena.end(),
            final(self).arena.free_list() == old(self).arena.free_list(),
            final(self).arena.avail_list() == old(self).arena.avail_list(),
            *final(self) == (TexState { arena: final(self).arena, ..*old(self) }),
    {
        let mut w = self.arena.cell(n as u16);
        w.set_hh_rh(value);
        self.arena.cell_write(n as u16, w);
    }

    pub fn set_info(&mut self, n: usize, value: u16)
        requires
            old(self).wf(),
            n <= MEM_MAX,
            old(self).arena.live(n as int),
        ensures
            final(self).wf(),
            final(self).arena.cells()[n as int].spec_hh_lh() == value,
            final(self).arena.cells()[n as int].spec_hh_rh() == old(self).arena.cells()[
                n as int].spec_hh_rh(),
            forall|a: int|
                0 <= a <= MEM_MAX && a != n ==> final(self).arena.cells()[a] == old(
                    self,
                ).arena.cells()[a],
            final(self).arena.live(n as int),
            forall|a: int| old(self).arena.live(a) ==> final(self).arena.live(a),
            final(self).arena.lo_max() == old(self).arena.lo_max(),
            final(self).arena.hi_min() == old(self).arena.hi_min(),
            final(self).arena.end() == old(self).arena.end(),
            final(self).arena.free_list() == old(self).arena.free_list(),
            final(self).arena.avail_list() == old(self).arena.avail_list(),
            *final(self) == (TexState { arena: final(self).arena, ..*old(self) }),
    {
        let mut w = self.arena.cell(n as u16);
        w.set_hh_lh(value);
        self.arena.cell_write(n as u16, w);
    }

    /// What kind of node this is.
    pub fn a_type(&self, n: usize) -> (r: u8)
        requires
            self.wf(),
            n <= MEM_MAX,
            self.arena.live(n as int),
        ensures
            r == self.arena.cells()[n as int].spec_hh_b0(),
    {
        self.arena.cell(n as u16).hh_b0()
    }

    /// Secondary identification of a node.
    pub fn subtype(&self, n: usize) -> (r: u8)
        requires
            self.wf(),
            n <= MEM_MAX,
            self.arena.live(n as int),
        ensures
            r == self.arena.cells()[n as int].spec_hh_b1(),
    {
        self.arena.cell(n as u16).hh_b1()
    }

    /// Width of the box based at `n`, in scaled points.
    pub fn width(&self, n: usize) -> (r: Scaled)
        requires
            self.wf(),
            n + WIDTH_OFFSET <= MEM_MAX,
            self.arena.live(n + WIDTH_OFFSET),
        ensures
            r as int == self.arena.cells()[n + WIDTH_OFFSET].spec_int(),
    {
        self.arena.cell((n + WIDTH_OFFSET as usize) as u16).sc()
    }

    /// Depth of the box based at `n`.
    pub fn depth(&self, n: usize) -> (r: Scaled)
        requires
            self.wf(),
            n + DEPTH_OFFSET <= MEM_MAX,
            self.arena.live(n + DEPTH_OFFSET),
        ensures
            r as int == self.arena.cells()[n + DEPTH_OFFSET].spec_int(),
    {
        self.arena.cell((n + DEPTH_OFFSET as usize) as u16).sc()
    }

    /// Height of the box based at `n`.
    pub fn height(&self, n: usize) -> (r: Scaled)
        requires
            self.wf(),
            n + HEIGHT_OFFSET <= MEM_MAX,
            self.arena.live(n + HEIGHT_OFFSET),
        ensures
            r as int == self.arena.cells()[n + HEIGHT_OFFSET].spec_int(),
    {
        self.arena.cell((n + HEIGHT_OFFSET as usize) as u16).sc()
    }

    /// Repositioning distance of the box based at `n`.
    pub fn shift_amount(&self, n: usize) -> (r: Scaled)
        requires
            self.wf(),
            n + SHIFT_OFFSET <= MEM_MAX,
            self.arena.live(n + SHIFT_OFFSET),
        ensures
            r as int == self.arena.cells()[n + SHIFT_OFFSET].spec_int(),
    {
        self.arena.cell((n + SHIFT_OFFSET as usize) as u16).sc()
    }

    /// Beginning of the list inside the box based at `n`.
    pub fn list_ptr(&self, n: usize) -> (r: u16)
        requires
            self.wf(),
            n + LIST_OFFSET <= MEM_MAX,
            self.arena.live(n + LIST_OFFSET),
        ensures
            r == self.arena.cells()[n + LIST_OFFSET].spec_hh_rh(),
    {
        self.link(n + LIST_OFFSET as usize)
    }

    /// Applicable order of infinity of the box based at `n`.
    pub fn glue_order(&self, n: usize) -> (r: u8)
        requires
            self.wf(),
            n + LIST_OFFSET <= MEM_MAX,
            self.arena.live(n + LIST_OFFSET),
        ensures
            r == self.arena.cells()[n + LIST_OFFSET].spec_hh_b1(),
    {
        self.subtype(n + LIST_OFFSET as usize)
    }

    /// Whether the box based at `n` stretches or shrinks.
    pub fn glue_sign(&self, n: usize) -> (r: u8)
        requires
            self.wf(),
            n + LIST_OFFSET <= MEM_MAX,
            self.arena.live(n + LIST_OFFSET),
        ensures
            r == self.arena.cells()[n + LIST_OFFSET].spec_hh_b0(),
    {
        self.a_type(n + LIST_OFFSET as usize)
    }

    /// A user dimension register, by register offset.
    pub fn dimen(&self, s: u16) -> (r: Scaled)
        requires
            self.wf(),
            SCALED_BASE + s <= EQTB_SIZE,
        ensures
            r as int == self.eqtb.word_at(SCALED_BASE + s as int).spec_int(),
    {
        self.eqtb.word_read(SCALED_BASE + s).as_int32()
    }

    /// A dimension parameter, by parameter code.
    pub fn dimen_par(&self, s: u16) -> (r: Scaled)
        requires
            self.wf(),
            DIMEN_BASE + s <= EQTB_SIZE,
        ensures
            r as int == self.eqtb.word_at(DIMEN_BASE + s as int).spec_int(),
    {
        self.eqtb.word_read(DIMEN_BASE + s).as_int32()
    }

    /// The paragraph indentation parameter.
    pub fn par_indent(&self) -> (r: Scaled)
        requires
            self.wf(),
        ensures
            r as int == self.eqtb.word_at(DIMEN_BASE + PAR_INDENT_CODE as int).spec_int(),
    {
        self.dimen_par(PAR_INDENT_CODE)
    }

    /// The mark in effect at the previous page break.
    pub fn top_mark(&self) -> (r: Pointer)
        requires
            self.wf(),
        ensures
            r == self.cur_mark.spec_index(TOP_MARK_CODE as int),
    {
        self.cur_mark.get(TOP_MARK_CODE)
    }

    /// The first mark between the top and bottom marks.
    pub fn first_mark(&self) -> (r: Pointer)
        requires
            self.wf(),
        ensures
            r == self.cur_mark.spec_index(FIRST_MARK_CODE as int),
    {
        self.cur_mark.get(FIRST_MARK_CODE)
    }

    /// The mark in effect at the current page break.
    pub fn bot_mark(&self) -> (r: Pointer)
        requires
            self.wf(),
        ensures
            r == self.cur_mark.spec_index(BOT_MARK_CODE as int),
    {
        self.cur_mark.get(BOT_MARK_CODE)
    }

    pub fn split_first_mark(&self) -> (r: Pointer)
        requires
            self.wf(),
        ensures
            r == self.cur_mark.spec_index(SPLIT_FIRST_MARK_CODE as int),
    {
        self.cur_mark.get(SPLIT_FIRST_MARK_CODE)
    }

    pub fn split_bot_mark(&self) -> (r: Pointer)
        requires
            self.wf(),
        ensures
            r == self.cur_mark.spec_index(SPLIT_BOT_MARK_CODE as int),
    {
        self.cur_mark.get(SPLIT_BOT_MARK_CODE)
    }

    /// Resets the engine to its ready-to-run state: character translation
    /// tables, error state, the semantic nest, the page builder, the
    /// definition levels, the control-sequence table, and the save stack.
    pub fn initialize(&mut self)
        requires
            old(self).wf(),
        ensures
            final(self).wf(),
            forall|j: int|
                0 <= j < 256 ==> final(self).xchr@[j] == (if 32 <= j <= 126 {
                    j as u8
                } else {
                    32u8
                }),
            forall|j: int|
                0 <= j < 256 ==> final(self).xord@[j] == (if 32 <= j <= 126 {
                    j as u8
                } else {
                    127u8
                }),
            final(self).interaction == Interaction::ErrorStopMode,
            final(self).deletions_allowed,
            final(self).set_box_allowed,
            final(self).error_count == 0,
            final(self).help_ptr == 0,
            !final(self).use_err_help,
            final(self).interrupt == 0,
            final(self).ok_to_interrupt,
            final(self).was_mem_end == MEM_MIN,
            final(self).was_lo_max == MEM_MIN,
            final(self).was_hi_min == MEM_MAX,
            !final(self).panicking,
            final(self).nest_ptr == 0,
            final(self).max_nest_stack == 0,
            final(self).curlist.mode_field == 1,
            final(self).curlist.head_field == CONTRIB_HEAD,
            final(self).curlist.tail_field == CONTRIB_HEAD,
            final(self).curlist.aux_field.spec_int() == -65536000,
            final(self).curlist.ml_field == 0,
            final(self).curlist.pg_field == 0,
            final(self).shown_mode == 0,
            final(self).page_contents == 0,
            final(self).page_tail == PAGE_HEAD,
            final(self).arena.cells()[PAGE_HEAD as int].spec_hh_rh() == NULL,
            final(self).last_glue == MAX_HALF_WORD,
            final(self).last_penalty == 0,
            final(self).last_kern == 0,
            final(self).page_so_far.spec_index(7) == 0,
            final(self).page_max_depth == 0,
            forall|loc: int|
                valid_location(loc) ==> final(self).eqtb.level_at(loc) == LEVEL_ONE,
            forall|loc: int|
                valid_location(loc) ==> final(self).eqtb.word_at(loc) == old(self).eqtb.word_at(
                    loc,
                ),
            forall|a: int|
                0 <= a <= MEM_MAX && a != PAGE_HEAD ==> final(self).arena.cells()[a] == old(
                    self,
                ).arena.cells()[a],
            final(self).arena.cells()[PAGE_HEAD as int].spec_hh_lh() == old(self).arena.cells()[
                PAGE_HEAD as int].spec_hh_lh(),
            final(self).arena.lo_max() == old(self).arena.lo_max(),
            final(self).arena.hi_min() == old(self).arena.hi_min(),
            final(self).arena.end() == old(self).arena.end(),
            final(self).arena.free_list() == old(self).arena.free_list(),
            final(self).arena.avail_list() == old(self).arena.avail_list(),
            forall|k: int| 0 <= k < HASH_SIZE ==> final(self).hash.slots()[k] is None,
            final(self).ready_already == old(self).ready_already,
            final(self).history == old(self).history,
            final(self).helpline == old(self).helpline,
            final(self).nest == old(self).nest,
            final(self).hash_used == old(self).hash_used,
            final(self).cs_count == old(self).cs_count,
            final(self).best_page_break == old(self).best_page_break,
            final(self).least_page_cost == old(self).least_page_cost,
            final(self).best_size == old(self).best_size,
            final(self).insert_penalties == old(self).insert_penalties,
            final(self).no_new_control_sequence,
            final(self).saves.level() == LEVEL_ONE,
            final(self).saves.group() == GroupCode::BottomLevel,
            final(self).saves.records() == Seq::<crate::save::SaveRecord>::empty(),
            final(self).mag_set == 0,
            final(self).cur_mark.spec_index(TOP_MARK_CODE as int) == NULL,
            final(self).cur_mark.spec_index(FIRST_MARK_CODE as int) == NULL,
            final(self).cur_mark.spec_index(BOT_MARK_CODE as int) == NULL,
            final(self).cur_mark.spec_index(SPLIT_FIRST_MARK_CODE as int) == NULL,
            final(self).cur_mark.spec_index(SPLIT_BOT_MARK_CODE as int) == NULL,
            final(self).cur_val == 0,
            final(self).cur_val_level == INT_VAL,
            final(self).radix == 0,
            final(self).cur_order == NORMAL,
    {
        // character translation: the printable characters stand for
        // themselves, everything else prints as a space and reads back as
        // the invalid code
        self.xchr = ascii_print_table();
        self.xord = ascii_read_table();
        self.interaction = Interaction::ErrorStopMode;
        self.deletions_allowed = true;
        self.set_box_allowed = true;
        self.error_count = 0;
        self.help_ptr = 0;
        self.use_err_help = false;
        self.interrupt = 0;
        self.ok_to_interrupt = true;
        self.was_mem_end = MEM_MIN;
        self.was_lo_max = MEM_MIN;
        self.was_hi_min = MEM_MAX;
        self.panicking = false;
        self.nest_ptr = 0;
        self.max_nest_stack = 0;
        self.curlist.mode_field = 1;
        self.curlist.head_field = CONTRIB_HEAD;
        self.curlist.tail_field = CONTRIB_HEAD;
        self.curlist.aux_field = MemoryWord::new_i32(-65536000);
        self.curlist.ml_field = 0;
        self.curlist.pg_field = 0;
        self.shown_mode = 0;
        self.page_contents = 0;
        self.page_tail = PAGE_HEAD;
        proof {
            // the static page head is always live: the one-cell free stack
            // holds only cells below the static block
            if self.arena.avail_list().contains(PAGE_HEAD) {
                let i = choose|i: int|
                    0 <= i < self.arena.avail_list().len() && self.arena.avail_list()[i]
                        == PAGE_HEAD;
            }
            assert(self.arena.single_in_use().contains(PAGE_HEAD as int));
        }
        self.set_link(PAGE_HEAD as usize, NULL);
        self.last_glue = MAX_HALF_WORD;
        self.last_penalty = 0;
        self.last_kern = 0;
        self.page_so_far.set(7, 0);
        self.page_max_depth = 0;
        // definition levels of the integer and dimension regions
        self.eqtb.reset_levels();
        self.no_new_control_sequence = true;
        self.hash = ControlSeqTable::new();
        self.saves = SaveStack::new();
        self.mag_set = 0;
        self.cur_mark.set(TOP_MARK_CODE, NULL);
        self.cur_mark.set(FIRST_MARK_CODE, NULL);
        self.cur_mark.set(BOT_MARK_CODE, NULL);
        self.cur_mark.set(SPLIT_FIRST_MARK_CODE, NULL);
        self.cur_mark.set(SPLIT_BOT_MARK_CODE, NULL);
        self.cur_val = 0;
        self.cur_val_level = INT_VAL;
        self.radix = 0;
        self.cur_order = NORMAL;
    }

    /// Bulk-loads a previously saved snapshot of the three persisted
    /// components — arena, equivalence table, control-sequence table — as
    /// a unit.  A snapshot is only valid whole: unless every part passes
    /// its load-time consistency check, nothing is replaced.  Loading
    /// restarts the save stack, since no group can span a reload.
    ///
    /// The checks re-establish each component's internal structure.  Which
    /// stored half-words are pointers into which component depends on type
    /// codes whose meaning the core deliberately does not interpret, so
    /// auditing cross-component references is the format loader's concern.
    pub fn load_snapshot(
        &mut self,
        cells: Vec<MemoryWord>,
        lo_mem_max: u16,
        hi_mem_min: u16,
        free_blocks: Vec<(u16, u16)>,
        avail: Vec<u16>,
        words: Vec<MemoryWord>,
        levels: Vec<u8>,
        names: Vec<Option<Vec<u8>>>,
    ) -> (r: Result<(), TexError>)
        requires
            old(self).wf(),
        ensures
            final(self).wf(),
            ({
                let valid = crate::arena::import_valid(
                    cells@,
                    lo_mem_max,
                    hi_mem_min,
                    free_blocks@,
                    avail@,
                ) && words@.len() == EQTB_SIZE - ACTIVE_BASE + 1 && levels@.len() == EQTB_SIZE
                    - ACTIVE_BASE + 1 && crate::hash::import_names_valid(
                    crate::hash::names_view(names@),
                );
                &&& valid ==> {
                    &&& r == Ok::<(), TexError>(())
                    &&& final(self).arena.cells() == cells@
                    &&& final(self).arena.lo_max() == lo_mem_max
                    &&& final(self).arena.hi_min() == hi_mem_min
                    &&& final(self).arena.free_list() == free_blocks@
                    &&& final(self).arena.avail_list() == avail@
                    &&& forall|loc: int|
                        valid_location(loc) ==> final(self).eqtb.word_at(loc) == words@[loc
                            - ACTIVE_BASE]
                    &&& forall|loc: int|
                        valid_location(loc) ==> final(self).eqtb.level_at(loc) == levels@[loc
                            - ACTIVE_BASE]
                    &&& final(self).hash.slots() == crate::hash::names_view(names@)
                    &&& final(self).saves.level() == LEVEL_ONE
                    &&& final(self).saves.records() == Seq::<crate::save::SaveRecord>::empty()
                }
                &&& !valid ==> r is Err && *final(self) == *old(self)
            }),
    {
        let arena = match NodeArena::import(cells, lo_mem_max, hi_mem_min, free_blocks, avail) {
            Ok(a) => a,
            Err(e) => {
                return Err(e);
            },
        };
        let eqtb = match EquivalenceTable::import(words, levels) {
            Ok(t) => t,
            Err(e) => {
                return Err(e);
            },
        };
        let hash = match ControlSeqTable::import(names) {
            Ok(h) => h,
            Err(e) => {
                return Err(e);
            },
        };
        self.arena = arena;
        self.eqtb = eqtb;
        self.hash = hash;
        self.saves = SaveStack::new();
        Ok(())
    }

    /// Clears the readiness flag and reports the exit status the run has
    /// earned: success only when nothing worse than a warning happened.
    pub fn final_cleanup(&mut self) -> (r: i32)
        ensures
            final(self).ready_already == 0,
            r == (if old(self).history.spec_value() <= History::WarningIssued.spec_value() {
                0int
            } else {
                1int
            }),
            *final(self) == (TexState { ready_already: 0, ..*old(self) }),
    {
        self.ready_already = 0;
        if self.history.value() <= History::WarningIssued.value() {
            0
        } else {
            1
        }
    }
}

/// The startup consistency check over the configuration constants; a
/// nonzero result names the first constant found clobbered, and the
/// constants of this build pass every test.
pub fn consistency_check() -> (r: i32)
    ensures
        r == 0,
{
    let mut bad: i32 = 0;
    if HALF_ERROR_LINE < 30 || HALF_ERROR_LINE > ERROR_LINE - 15 {
        bad = 1;
    }
    if MAX_PRINT_LINE < 60 {
        bad = 2;
    }
    if DVI_BUF_SIZE % 8 != 0 {
        bad = 3;
    }
    if MEM_BOT as i32 + 1100 > MEM_TOP as i32 {
        bad = 4;
    }
    if HASH_PRIME as i32 > HASH_SIZE as i32 {
        bad = 5;
    }
    if MAX_IN_OPEN >= 128 {
        bad = 6;
    }
    if (MEM_TOP as i32) < 256 + 11 {
        bad = 7;
    }
    if MEM_MIN as i32 > MEM_BOT as i32 || (MEM_MAX as i32) < MEM_TOP as i32 {
        bad = 10;
    }
    if MIN_QUARTER_WORD > 0 || (MAX_QUARTER_WORD as i32) < 127 {
        bad = 11;
    }
    if MIN_HALF_WORD > 0 || (MAX_HALF_WORD as i32) < 32767 {
        bad = 12;
    }
    if (MIN_QUARTER_WORD as u16) < MIN_HALF_WORD || MAX_QUARTER_WORD as u16 > MAX_HALF_WORD {
        bad = 13;
    }
    if (MEM_MIN as i32) < MIN_HALF_WORD as i32 || MEM_MAX as i32 >= MAX_HALF_WORD as i32
        || MEM_BOT as i32 - (MEM_MIN as i32) > MAX_HALF_WORD as i32 + 1 {
        bad = 14;
    }
    if (FONT_BASE as i32) < MIN_QUARTER_WORD as i32 || FONT_MAX > MAX_QUARTER_WORD as i32 {
        bad = 15;
    }
    if FONT_MAX > FONT_BASE as i32 + 256 {
        bad = 16;
    }
    if SAVE_SIZE_LIMIT > MAX_HALF_WORD as i32 {
        bad = 18;
    }
    if (MAX_QUARTER_WORD as i32) - (MIN_QUARTER_WORD as i32) < 255 {
        bad = 19;
    }
    if TokenList::CsTokenFlag.value() + UNDEFINED_CONTROL_SEQUENCE as i32 > MAX_HALF_WORD as i32 {
        bad = 21;
    }
    if FORMAT_DEFAULT_LENGTH > FILE_NAME_SIZE {
        bad = 31;
    }
    if 2 * (MAX_HALF_WORD as i32) < MEM_TOP as i32 - MEM_MIN as i32 {
        bad = 41;
    }
    bad
}

} // verus!
