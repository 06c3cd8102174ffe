//! The equivalence table: a flat array mapping every meaning location
//! (active character, control-sequence id, register, internal parameter) to
//! a current memory cell, paired with a parallel array of definition
//! levels.
//!
//! The location space is a fixed partition into consecutive regions whose
//! boundaries are configuration constants computed once and never changed
//! at runtime; `region_of` classifies a location.  The table itself never
//! rolls anything back: level management belongs to the group/save stack.

use vstd::prelude::*;
use crate::word::MemoryWord;
use crate::array::Array;
use crate::TexError;

verus! {

// Region boundaries of the location space.  These are fixed configuration
// constants; every location in [ACTIVE_BASE, EQTB_SIZE] falls in exactly
// one region.
pub const ACTIVE_BASE: u16 = 1;
pub const SINGLE_BASE: u16 = ACTIVE_BASE + 256;
pub const NULL_CS: u16 = SINGLE_BASE + 256;
pub const HASH_BASE: u16 = NULL_CS + 1;
pub const HASH_SIZE: u16 = 2100;
pub const HASH_PRIME: u16 = 1777;
pub const FROZEN_CONTROL_SEQUENCE: u16 = HASH_BASE + HASH_SIZE;
pub const FROZEN_PROTECTION: u16 = FROZEN_CONTROL_SEQUENCE;
pub const FROZEN_CR: u16 = FROZEN_CONTROL_SEQUENCE + 1;
pub const FROZEN_END_GROUP: u16 = FROZEN_CONTROL_SEQUENCE + 2;
pub const FROZEN_RIGHT: u16 = FROZEN_CONTROL_SEQUENCE + 3;
pub const FROZEN_FI: u16 = FROZEN_CONTROL_SEQUENCE + 4;
pub const FROZEN_END_TEMPLATE: u16 = FROZEN_CONTROL_SEQUENCE + 5;
pub const FROZEN_ENDV: u16 = FROZEN_CONTROL_SEQUENCE + 6;
pub const FROZEN_RELAX: u16 = FROZEN_CONTROL_SEQUENCE + 7;
pub const END_WRITE: u16 = FROZEN_CONTROL_SEQUENCE + 8;
pub const FROZEN_DONT_EXPAND: u16 = FROZEN_CONTROL_SEQUENCE + 9;
pub const FROZEN_NULL_FONT: u16 = FROZEN_CONTROL_SEQUENCE + 10;
pub const FONT_BASE: u16 = 0;
pub const FONT_ID_BASE: u16 = FROZEN_NULL_FONT - FONT_BASE;
pub const UNDEFINED_CONTROL_SEQUENCE: u16 = FROZEN_NULL_FONT + 257;
pub const GLUE_BASE: u16 = UNDEFINED_CONTROL_SEQUENCE + 1;
pub const GLUE_PARS: u16 = 18;
pub const SKIP_BASE: u16 = GLUE_BASE + GLUE_PARS;
pub const MU_SKIP_BASE: u16 = SKIP_BASE + 256;
pub const LOCAL_BASE: u16 = MU_SKIP_BASE + 256;
pub const PAR_SHAPE_LOC: u16 = LOCAL_BASE;
pub const OUTPUT_ROUTINE_LOC: u16 = LOCAL_BASE + 1;
pub const EVERY_PAR_LOC: u16 = LOCAL_BASE + 2;
pub const EVERY_MATH_LOC: u16 = LOCAL_BASE + 3;
pub const EVERY_DISPLAY_LOC: u16 = LOCAL_BASE + 4;
pub const EVERY_HBOX_LOC: u16 = LOCAL_BASE + 5;
pub const EVERY_VBOX_LOC: u16 = LOCAL_BASE + 6;
pub const EVERY_JOB_LOC: u16 = LOCAL_BASE + 7;
pub const EVERY_CR_LOC: u16 = LOCAL_BASE + 8;
pub const ERR_HELP_LOC: u16 = LOCAL_BASE + 9;
pub const TOKS_BASE: u16 = LOCAL_BASE + 10;
pub const BOX_BASE: u16 = TOKS_BASE + 256;
pub const CUR_FONT_LOC: u16 = TOKS_BASE + 256;
pub const MATH_FONT_BASE: u16 = CUR_FONT_LOC + 1;
pub const CAT_CODE_BASE: u16 = MATH_FONT_BASE + 48;
pub const LC_CODE_BASE: u16 = CAT_CODE_BASE + 256;
pub const UC_CODE_BASE: u16 = LC_CODE_BASE + 256;
pub const SF_CODE_BASE: u16 = UC_CODE_BASE + 256;
pub const MATH_CODE_BASE: u16 = SF_CODE_BASE + 256;
pub const INT_BASE: u16 = MATH_CODE_BASE + 256;
pub const INT_PARS: u16 = 55;
pub const COUNT_BASE: u16 = INT_BASE + INT_PARS;
pub const DEL_CODE_BASE: u16 = COUNT_BASE + 256;
pub const DIMEN_BASE: u16 = DEL_CODE_BASE + 256;
pub const DIMEN_PARS: u16 = 21;
pub const SCALED_BASE: u16 = DIMEN_BASE + DIMEN_PARS;
pub const EQTB_SIZE: u16 = SCALED_BASE + 255;

/// Offset of the paragraph-indentation parameter in the dimension region.
pub const PAR_INDENT_CODE: u16 = 0;

/// Definition level of undefined quantities.
pub const LEVEL_ZERO: u8 = 0;
/// Outermost definition level of defined quantities.
pub const LEVEL_ONE: u8 = LEVEL_ZERO + 1;

/// The category of meaning a location is dedicated to.
#[derive(Clone, Copy, PartialEq, Eq, Structural, Debug)]
pub enum RegionTag {
    ActiveChar,
    SingleChar,
    NullCs,
    HashEntry,
    FrozenCs,
    FontId,
    UndefinedCs,
    GlueParam,
    SkipRegister,
    MuSkipRegister,
    TokenParam,
    ToksRegister,
    CurFont,
    MathFont,
    CatCode,
    LcCode,
    UcCode,
    SfCode,
    MathCode,
    IntParam,
    CountRegister,
    DelCode,
    DimenParam,
    DimenRegister,
}

/// Whether `loc` addresses an equivalence-table entry.
pub open spec fn valid_location(loc: int) -> bool {
    ACTIVE_BASE <= loc <= EQTB_SIZE
}

/// The region that holds `loc`.
pub open spec fn spec_region_of(loc: u16) -> RegionTag {
    if loc < SINGLE_BASE {
        RegionTag::ActiveChar
    } else if loc < NULL_CS {
        RegionTag::SingleChar
    } else if loc == NULL_CS {
        RegionTag::NullCs
    } else if loc < FROZEN_CONTROL_SEQUENCE {
        RegionTag::HashEntry
    } else if loc < FROZEN_NULL_FONT {
        RegionTag::FrozenCs
    } else if loc < UNDEFINED_CONTROL_SEQUENCE {
        RegionTag::FontId
    } else if loc == UNDEFINED_CONTROL_SEQUENCE {
        RegionTag::UndefinedCs
    } else if loc < SKIP_BASE {
        RegionTag::GlueParam
    } else if loc < MU_SKIP_BASE {
        RegionTag::SkipRegister
    } else if loc < LOCAL_BASE {
        RegionTag::MuSkipRegister
    } else if loc < TOKS_BASE {
        RegionTag::TokenParam
    } else if loc < CUR_FONT_LOC {
        RegionTag::ToksRegister
    } else if loc == CUR_FONT_LOC {
        RegionTag::CurFont
    } else if loc < CAT_CODE_BASE {
        RegionTag::MathFont
    } else if loc < LC_CODE_BASE {
        RegionTag::CatCode
    } else if loc < UC_CODE_BASE {
        RegionTag::LcCode
    } else if loc < SF_CODE_BASE {
        RegionTag::UcCode
    } else if loc < MATH_CODE_BASE {
        RegionTag::SfCode
    } else if loc < INT_BASE {
        RegionTag::MathCode
    } else if loc < COUNT_BASE {
        RegionTag::IntParam
    } else if loc < DEL_CODE_BASE {
        RegionTag::CountRegister
    } else if loc < DIMEN_BASE {
        RegionTag::DelCode
    } else if loc < SCALED_BASE {
        RegionTag::DimenParam
    } else {
        RegionTag::DimenRegister
    }
}

/// Classifies a location into its region; a pure function of the fixed
/// boundaries, used by callers to decide how a location is encoded.
#[verifier::when_used_as_spec(spec_region_of)]
pub fn region_of(loc: u16) -> (r: RegionTag)
    requires
        valid_location(loc as int),
    ensures
        r == spec_region_of(loc),
{
    if loc < SINGLE_BASE {
        RegionTag::ActiveChar
    } else if loc < NULL_CS {
        RegionTag::SingleChar
    } else if loc == NULL_CS {
        RegionTag::NullCs
    } else if loc < FROZEN_CONTROL_SEQUENCE {
        RegionTag::HashEntry
    } else if loc < FROZEN_NULL_FONT {
        RegionTag::FrozenCs
    } else if loc < UNDEFINED_CONTROL_SEQUENCE {
        RegionTag::FontId
    } else if loc == UNDEFINED_CONTROL_SEQUENCE {
        RegionTag::UndefinedCs
    } else if loc < SKIP_BASE {
        RegionTag::GlueParam
    } else if loc < MU_SKIP_BASE {
        RegionTag::SkipRegister
    } else if loc < LOCAL_BASE {
        RegionTag::MuSkipRegister
    } else if loc < TOKS_BASE {
        RegionTag::TokenParam
    } else if loc < CUR_FONT_LOC {
        RegionTag::ToksRegister
    } else if loc == CUR_FONT_LOC {
        RegionTag::CurFont
    } else if loc < CAT_CODE_BASE {
        RegionTag::MathFont
    } else if loc < LC_CODE_BASE {
        RegionTag::CatCode
    } else if loc < UC_CODE_BASE {
        RegionTag::LcCode
    } else if loc < SF_CODE_BASE {
        RegionTag::UcCode
    } else if loc < MATH_CODE_BASE {
        RegionTag::SfCode
    } else if loc < INT_BASE {
        RegionTag::MathCode
    } else if loc < COUNT_BASE {
        RegionTag::IntParam
    } else if loc < DEL_CODE_BASE {
        RegionTag::CountRegister
    } else if loc < DIMEN_BASE {
        RegionTag::DelCode
    } else if loc < SCALED_BASE {
        RegionTag::DimenParam
    } else {
        RegionTag::DimenRegister
    }
}

/// Between every two adjacent regions the boundary is off by one: the last
/// location of a region and the first location of the next are adjacent
/// integers that map to different tags.
pub proof fn lemma_region_boundaries()
    ensures
        spec_region_of(ACTIVE_BASE) == RegionTag::ActiveChar,
        spec_region_of((SINGLE_BASE - 1) as u16) == RegionTag::ActiveChar,
        spec_region_of(SINGLE_BASE) == RegionTag::SingleChar,
        spec_region_of((NULL_CS - 1) as u16) == RegionTag::SingleChar,
        spec_region_of(NULL_CS) == RegionTag::NullCs,
        spec_region_of(HASH_BASE) == RegionTag::HashEntry,
        spec_region_of((FROZEN_CONTROL_SEQUENCE - 1) as u16) == RegionTag::HashEntry,
        spec_region_of(FROZEN_CONTROL_SEQUENCE) == RegionTag::FrozenCs,
        spec_region_of((FROZEN_NULL_FONT - 1) as u16) == RegionTag::FrozenCs,
        spec_region_of(FROZEN_NULL_FONT) == RegionTag::FontId,
        spec_region_of((UNDEFINED_CONTROL_SEQUENCE - 1) as u16) == RegionTag::FontId,
        spec_region_of(UNDEFINED_CONTROL_SEQUENCE) == RegionTag::UndefinedCs,
        spec_region_of(GLUE_BASE) == RegionTag::GlueParam,
        spec_region_of((SKIP_BASE - 1) as u16) == RegionTag::GlueParam,
        spec_region_of(SKIP_BASE) == RegionTag::SkipRegister,
        spec_region_of((MU_SKIP_BASE - 1) as u16) == RegionTag::SkipRegister,
        spec_region_of(MU_SKIP_BASE) == RegionTag::MuSkipRegister,
        spec_region_of((LOCAL_BASE - 1) as u16) == RegionTag::MuSkipRegister,
        spec_region_of(LOCAL_BASE) == RegionTag::TokenParam,
        spec_region_of((TOKS_BASE - 1) as u16) == RegionTag::TokenParam,
        spec_region_of(TOKS_BASE) == RegionTag::ToksRegister,
        spec_region_of((CUR_FONT_LOC - 1) as u16) == RegionTag::ToksRegister,
        spec_region_of(CUR_FONT_LOC) == RegionTag::CurFont,
        spec_region_of(MATH_FONT_BASE) == RegionTag::MathFont,
        spec_region_of((CAT_CODE_BASE - 1) as u16) == RegionTag::MathFont,
        spec_region_of(CAT_CODE_BASE) == RegionTag::CatCode,
        spec_region_of((LC_CODE_BASE - 1) as u16) == RegionTag::CatCode,
        spec_region_of(LC_CODE_BASE) == RegionTag::LcCode,
        spec_region_of((UC_CODE_BASE - 1) as u16) == RegionTag::LcCode,
        spec_region_of(UC_CODE_BASE) == RegionTag::UcCode,
        spec_region_of((SF_CODE_BASE - 1) as u16) == RegionTag::UcCode,
        spec_region_of(SF_CODE_BASE) == RegionTag::SfCode,
        spec_region_of((MATH_CODE_BASE - 1) as u16) == RegionTag::SfCode,
        spec_region_of(MATH_CODE_BASE) == RegionTag::MathCode,
        spec_region_of((INT_BASE - 1) as u16) == RegionTag::MathCode,
        spec_region_of(INT_BASE) == RegionTag::IntParam,
        spec_region_of((COUNT_BASE - 1) as u16) == RegionTag::IntParam,
        spec_region_of(COUNT_BASE) == RegionTag::CountRegister,
        spec_region_of((DEL_CODE_BASE - 1) as u16) == RegionTag::CountRegister,
        spec_region_of(DEL_CODE_BASE) == RegionTag::DelCode,
        spec_region_of((DIMEN_BASE - 1) as u16) == RegionTag::DelCode,
        spec_region_of(DIMEN_BASE) == RegionTag::DimenParam,
        spec_region_of((SCALED_BASE - 1) as u16) == RegionTag::DimenParam,
        spec_region_of(SCALED_BASE) == RegionTag::DimenRegister,
        spec_region_of(EQTB_SIZE) == RegionTag::DimenRegister,
{
}

/// The location-space landmarks of the control-sequence regions.
#[derive(Clone, Copy, PartialEq, Eq, Structural, Debug)]
pub enum EquivRegion2Code {
    ActiveBase,
    SingleBase,
    NullCs,
    HashBase,
    FrozenControlSequence,
    FrozenProtection,
    FrozenCr,
    FrozenEndGroup,
    FrozenRight,
    FrozenFi,
    FrozenEndTemplate,
    FrozenEndv,
    FrozenRelax,
    EndWrite,
    FrozenDontExpand,
    FrozenNullFont,
    FontIdBase,
    UndefinedControlSequence,
    GlueBase,
}

impl EquivRegion2Code {
    pub open spec fn spec_value(&self) -> u16 {
        match self {
            EquivRegion2Code::ActiveBase => ACTIVE_BASE,
            EquivRegion2Code::SingleBase => SINGLE_BASE,
            EquivRegion2Code::NullCs => NULL_CS,
            EquivRegion2Code::HashBase => HASH_BASE,
            EquivRegion2Code::FrozenControlSequence => FROZEN_CONTROL_SEQUENCE,
            EquivRegion2Code::FrozenProtection => FROZEN_PROTECTION,
            EquivRegion2Code::FrozenCr => FROZEN_CR,
            EquivRegion2Code::FrozenEndGroup => FROZEN_END_GROUP,
            EquivRegion2Code::FrozenRight => FROZEN_RIGHT,
            EquivRegion2Code::FrozenFi => FROZEN_FI,
            EquivRegion2Code::FrozenEndTemplate => FROZEN_END_TEMPLATE,
            EquivRegion2Code::FrozenEndv => FROZEN_ENDV,
            EquivRegion2Code::FrozenRelax => FROZEN_RELAX,
            EquivRegion2Code::EndWrite => END_WRITE,
            EquivRegion2Code::FrozenDontExpand => FROZEN_DONT_EXPAND,
            EquivRegion2Code::FrozenNullFont => FROZEN_NULL_FONT,
            EquivRegion2Code::FontIdBase => FONT_ID_BASE,
            EquivRegion2Code::UndefinedControlSequence => UNDEFINED_CONTROL_SEQUENCE,
            EquivRegion2Code::GlueBase => GLUE_BASE,
        }
    }

    #[verifier::when_used_as_spec(spec_value)]
    pub fn value(&self) -> (r: u16)
        ensures
            r == self.spec_value(),
    {
        match self {
            EquivRegion2Code::ActiveBase => ACTIVE_BASE,
            EquivRegion2Code::SingleBase => SINGLE_BASE,
            EquivRegion2Code::NullCs => NULL_CS,
            EquivRegion2Code::HashBase => HASH_BASE,
            EquivRegion2Code::FrozenControlSequence => FROZEN_CONTROL_SEQUENCE,
            EquivRegion2Code::FrozenProtection => FROZEN_PROTECTION,
            EquivRegion2Code::FrozenCr => FROZEN_CR,
            EquivRegion2Code::FrozenEndGroup => FROZEN_END_GROUP,
            EquivRegion2Code::FrozenRight => FROZEN_RIGHT,
            EquivRegion2Code::FrozenFi => FROZEN_FI,
            EquivRegion2Code::FrozenEndTemplate => FROZEN_END_TEMPLATE,
            EquivRegion2Code::FrozenEndv => FROZEN_ENDV,
            EquivRegion2Code::FrozenRelax => FROZEN_RELAX,
            EquivRegion2Code::EndWrite => END_WRITE,
            EquivRegion2Code::FrozenDontExpand => FROZEN_DONT_EXPAND,
            EquivRegion2Code::FrozenNullFont => FROZEN_NULL_FONT,
            EquivRegion2Code::FontIdBase => FONT_ID_BASE,
            EquivRegion2Code::UndefinedControlSequence => UNDEFINED_CONTROL_SEQUENCE,
            EquivRegion2Code::GlueBase => GLUE_BASE,
        }
    }
}

/// The glue parameters, offsets from the base of the glue region.
#[derive(Clone, Copy, PartialEq, Eq, Structural, Debug)]
pub enum EquivRegion3Code {
    LineSkipCode,
    BaselineSkipCode,
    ParSkipCode,
    AboveDisplaySkipCode,
    BelowDisplaySkipCode,
    AboveDisplayShortSkipCode,
    BelowDisplayShortSkipCode,
    LeftSkipCode,
    RightSkipCode,
    TopSkipCode,
    SplitTopSkipCode,
    TabSkipCode,
    SpaceSkipCode,
    XspaceSkipCode,
    ParFillSkipCode,
    ThinMuSkipCode,
    MedMuSkipCode,
    ThickMuSkipCode,
}

impl EquivRegion3Code {
    pub open spec fn spec_value(&self) -> u16 {
        match self {
            EquivRegion3Code::LineSkipCode => 0,
            EquivRegion3Code::BaselineSkipCode => 1,
            EquivRegion3Code::ParSkipCode => 2,
            EquivRegion3Code::AboveDisplaySkipCode => 3,
            EquivRegion3Code::BelowDisplaySkipCode => 4,
            EquivRegion3Code::AboveDisplayShortSkipCode => 5,
            EquivRegion3Code::BelowDisplayShortSkipCode => 6,
            EquivRegion3Code::LeftSkipCode => 7,
            EquivRegion3Code::RightSkipCode => 8,
            EquivRegion3Code::TopSkipCode => 9,
            EquivRegion3Code::SplitTopSkipCode => 10,
            EquivRegion3Code::TabSkipCode => 11,
            EquivRegion3Code::SpaceSkipCode => 12,
            EquivRegion3Code::XspaceSkipCode => 13,
            EquivRegion3Code::ParFillSkipCode => 14,
            EquivRegion3Code::ThinMuSkipCode => 15,
            EquivRegion3Code::MedMuSkipCode => 16,
            EquivRegion3Code::ThickMuSkipCode => 17,
        }
    }

    #[verifier::when_used_as_spec(spec_value)]
    pub fn value(&self) -> (r: u16)
        ensures
            r == self.spec_value(),
    {
        match self {
            EquivRegion3Code::LineSkipCode => 0,
            EquivRegion3Code::BaselineSkipCode => 1,
            EquivRegion3Code::ParSkipCode => 2,
            EquivRegion3Code::AboveDisplaySkipCode => 3,
            EquivRegion3Code::BelowDisplaySkipCode => 4,
            EquivRegion3Code::AboveDisplayShortSkipCode => 5,
            EquivRegion3Code::BelowDisplayShortSkipCode => 6,
            EquivRegion3Code::LeftSkipCode => 7,
            EquivRegion3Code::RightSkipCode => 8,
            EquivRegion3Code::TopSkipCode => 9,
            EquivRegion3Code::SplitTopSkipCode => 10,
            EquivRegion3Code::TabSkipCode => 11,
            EquivRegion3Code::SpaceSkipCode => 12,
            EquivRegion3Code::XspaceSkipCode => 13,
            EquivRegion3Code::ParFillSkipCode => 14,
            EquivRegion3Code::ThinMuSkipCode => 15,
            EquivRegion3Code::MedMuSkipCode => 16,
            EquivRegion3Code::ThickMuSkipCode => 17,
        }
    }
}

/// The token-list parameter locations of the fourth region.
#[derive(Clone, Copy, PartialEq, Eq, Structural, Debug)]
pub enum EquivRegion4Loc {
    ParShapeLoc,
    OutputRoutineLoc,
    EveryParLoc,
    EveryMathLoc,
    EveryDisplayLoc,
    EveryHboxLoc,
    EveryVboxLoc,
    EveryJobLoc,
    EveryCrLoc,
    ErrHelpLoc,
    ToksBase,
    BoxBase,
    CurFontLoc,
}

impl EquivRegion4Loc {
    pub open spec fn spec_value(&self) -> u16 {
        match self {
            EquivRegion4Loc::ParShapeLoc => PAR_SHAPE_LOC,
            EquivRegion4Loc::OutputRoutineLoc => OUTPUT_ROUTINE_LOC,
            EquivRegion4Loc::EveryParLoc => EVERY_PAR_LOC,
            EquivRegion4Loc::EveryMathLoc => EVERY_MATH_LOC,
            EquivRegion4Loc::EveryDisplayLoc => EVERY_DISPLAY_LOC,
            EquivRegion4Loc::EveryHboxLoc => EVERY_HBOX_LOC,
            EquivRegion4Loc::EveryVboxLoc => EVERY_VBOX_LOC,
            EquivRegion4Loc::EveryJobLoc => EVERY_JOB_LOC,
            EquivRegion4Loc::EveryCrLoc => EVERY_CR_LOC,
            EquivRegion4Loc::ErrHelpLoc => ERR_HELP_LOC,
            EquivRegion4Loc::ToksBase => TOKS_BASE,
            EquivRegion4Loc::BoxBase => BOX_BASE,
            EquivRegion4Loc::CurFontLoc => CUR_FONT_LOC,
        }
    }

    #[verifier::when_used_as_spec(spec_value)]
    pub fn value(&self) -> (r: u16)
        ensures
            r == self.spec_value(),
    {
        match self {
            EquivRegion4Loc::ParShapeLoc => PAR_SHAPE_LOC,
            EquivRegion4Loc::OutputRoutineLoc => OUTPUT_ROUTINE_LOC,
            EquivRegion4Loc::EveryParLoc => EVERY_PAR_LOC,
            EquivRegion4Loc::EveryMathLoc => EVERY_MATH_LOC,
            EquivRegion4Loc::EveryDisplayLoc => EVERY_DISPLAY_LOC,
            EquivRegion4Loc::EveryHboxLoc => EVERY_HBOX_LOC,
            EquivRegion4Loc::EveryVboxLoc => EVERY_VBOX_LOC,
            EquivRegion4Loc::EveryJobLoc => EVERY_JOB_LOC,
            EquivRegion4Loc::EveryCrLoc => EVERY_CR_LOC,
            EquivRegion4Loc::ErrHelpLoc => ERR_HELP_LOC,
            EquivRegion4Loc::ToksBase => TOKS_BASE,
            EquivRegion4Loc::BoxBase => BOX_BASE,
            EquivRegion4Loc::CurFontLoc => CUR_FONT_LOC,
        }
    }
}

/// The dimension parameters, offsets from the base of the dimension region.
#[derive(Clone, Copy, PartialEq, Eq, Structural, Debug)]
pub enum EquivRegion6Code {
    ParIndentCode,
    MathSurroundCode,
    LineSkipLimitCode,
    HsizeCode,
    VsizeCode,
    MaxDepthCode,
    SplitMaxDepthCode,
    BoxMaxDepthCode,
    HfuzzCode,
    VfuzzCode,
    DelimiterShortfallCode,
    NullDelimiterSpaceCode,
    ScriptSpaceCode,
    PreDisplaySizeCode,
    DisplayWidthCode,
    DisplayIndentCode,
    OverfullRuleCode,
    HangIndentCode,
    HOffsetCode,
    VOffsetCode,
    EmergencyStretchCode,
}

impl EquivRegion6Code {
    pub open spec fn spec_value(&self) -> u16 {
        match self {
            EquivRegion6Code::ParIndentCode => 0,
            EquivRegion6Code::MathSurroundCode => 1,
            EquivRegion6Code::LineSkipLimitCode => 2,
            EquivRegion6Code::HsizeCode => 3,
            EquivRegion6Code::VsizeCode => 4,
            EquivRegion6Code::MaxDepthCode => 5,
            EquivRegion6Code::SplitMaxDepthCode => 6,
            EquivRegion6Code::BoxMaxDepthCode => 7,
            EquivRegion6Code::HfuzzCode => 8,
            EquivRegion6Code::VfuzzCode => 9,
            EquivRegion6Code::DelimiterShortfallCode => 10,
            EquivRegion6Code::NullDelimiterSpaceCode => 11,
            EquivRegion6Code::ScriptSpaceCode => 12,
            EquivRegion6Code::PreDisplaySizeCode => 13,
            EquivRegion6Code::DisplayWidthCode => 14,
            EquivRegion6Code::DisplayIndentCode => 15,
            EquivRegion6Code::OverfullRuleCode => 16,
            EquivRegion6Code::HangIndentCode => 17,
            EquivRegion6Code::HOffsetCode => 18,
            EquivRegion6Code::VOffsetCode => 19,
            EquivRegion6Code::EmergencyStretchCode => 20,
        }
    }

    #[verifier::when_used_as_spec(spec_value)]
    pub fn value(&self) -> (r: u16)
        ensures
            r == self.spec_value(),
    {
        match self {
            EquivRegion6Code::ParIndentCode => 0,
            EquivRegion6Code::MathSurroundCode => 1,
            EquivRegion6Code::LineSkipLimitCode => 2,
            EquivRegion6Code::HsizeCode => 3,
            EquivRegion6Code::VsizeCode => 4,
            EquivRegion6Code::MaxDepthCode => 5,
            EquivRegion6Code::SplitMaxDepthCode => 6,
            EquivRegion6Code::BoxMaxDepthCode => 7,
            EquivRegion6Code::HfuzzCode => 8,
            EquivRegion6Code::VfuzzCode => 9,
            EquivRegion6Code::DelimiterShortfallCode => 10,
            EquivRegion6Code::NullDelimiterSpaceCode => 11,
            EquivRegion6Code::ScriptSpaceCode => 12,
            EquivRegion6Code::PreDisplaySizeCode => 13,
            EquivRegion6Code::DisplayWidthCode => 14,
            EquivRegion6Code::DisplayIndentCode => 15,
            EquivRegion6Code::OverfullRuleCode => 16,
            EquivRegion6Code::HangIndentCode => 17,
            EquivRegion6Code::HOffsetCode => 18,
            EquivRegion6Code::VOffsetCode => 19,
            EquivRegion6Code::EmergencyStretchCode => 20,
        }
    }
}

/// The mathematical view of the equivalence table: total maps from the
/// valid locations to their cells and definition levels.
pub struct EqState {
    pub words: Map<int, MemoryWord>,
    pub levels: Map<int, u8>,
}

/// A table state is total: it has an entry for every valid location.
pub open spec fn eq_state_wf(eq: EqState) -> bool {
    &&& forall|loc: int| valid_location(loc) ==> eq.words.dom().contains(loc)
    &&& forall|loc: int| valid_location(loc) ==> eq.levels.dom().contains(loc)
}

/// The equivalence table proper: one flat array of memory cells and one
/// parallel array of definition levels, both addressed by the same
/// location.
pub struct EquivalenceTable {
    eqtb: Array<MemoryWord>,
    xeq_level: Array<u8>,
}

impl EquivalenceTable {
    /// The cell at `loc`: its quarter-word `b0` is the type code and its
    /// right half-word the equivalent value.
    pub closed spec fn word_at(&self, loc: int) -> MemoryWord {
        self.eqtb.spec_index(loc)
    }

    /// The definition level at `loc`.
    pub closed spec fn level_at(&self, loc: int) -> u8 {
        self.xeq_level.spec_index(loc)
    }

    /// The table as a pair of maps over the valid locations.
    pub open spec fn model(&self) -> EqState {
        EqState {
            words: Map::new(|loc: int| valid_location(loc), |loc: int| self.word_at(loc)),
            levels: Map::new(|loc: int| valid_location(loc), |loc: int| self.level_at(loc)),
        }
    }

    /// The model of a table is total over the valid locations.
    pub proof fn lemma_model_wf(&self)
        ensures
            eq_state_wf(self.model()),
    {
    }

    pub closed spec fn wf(&self) -> bool {
        &&& self.eqtb.wf()
        &&& self.eqtb.spec_min() == ACTIVE_BASE
        &&& self.eqtb.spec_max() == EQTB_SIZE
        &&& self.xeq_level.wf()
        &&& self.xeq_level.spec_min() == ACTIVE_BASE
        &&& self.xeq_level.spec_max() == EQTB_SIZE
    }

    /// A fresh table: every location undefined (all-zero cell) at the
    /// outermost level.
    pub fn new() -> (r: EquivalenceTable)
        ensures
            r.wf(),
            forall|loc: int|
                valid_location(loc) ==> r.word_at(loc) == (MemoryWord {
                    b0: 0,
                    b1: 0,
                    b2: 0,
                    b3: 0,
                }),
            forall|loc: int| valid_location(loc) ==> r.level_at(loc) == LEVEL_ONE,
    {
        EquivalenceTable {
            eqtb: Array::new(
                ACTIVE_BASE as usize,
                EQTB_SIZE as usize,
                MemoryWord { b0: 0, b1: 0, b2: 0, b3: 0 },
            ),
            xeq_level: Array::new(ACTIVE_BASE as usize, EQTB_SIZE as usize, LEVEL_ONE),
        }
    }

    /// Reads the entry at `loc` as the triple (type code, level, value).
    pub fn read(&self, loc: u16) -> (r: Result<(u8, u8, u16), TexError>)
        requires
            self.wf(),
        ensures
            valid_location(loc as int) ==> r == Ok::<(u8, u8, u16), TexError>(
                (
                    self.word_at(loc as int).spec_hh_b0(),
                    self.level_at(loc as int),
                    self.word_at(loc as int).spec_hh_rh(),
                ),
            ),
            !valid_location(loc as int) ==> r == Err::<(u8, u8, u16), TexError>(
                TexError::InvalidLocation,
            ),
    {
        if loc < ACTIVE_BASE || loc > EQTB_SIZE {
            return Err(TexError::InvalidLocation);
        }
        let w = self.eqtb.get(loc as usize);
        let level = self.xeq_level.get(loc as usize);
        Ok((w.hh_b0(), level, w.hh_rh()))
    }

    /// Writes type code and value at `loc`, leaving the level alone: the
    /// table itself does not decide whether a write is new or a
    /// redefinition.
    pub fn write(&mut self, loc: u16, eq_type: u8, value: u16) -> (r: Result<(), TexError>)
        requires
            old(self).wf(),
        ensures
            final(self).wf(),
            valid_location(loc as int) ==> {
                &&& r == Ok::<(), TexError>(())
                &&& final(self).word_at(loc as int).spec_hh_b0() == eq_type
                &&& final(self).word_at(loc as int).spec_hh_rh() == value
                &&& final(self).word_at(loc as int).spec_hh_b1() == old(self).word_at(
                    loc as int,
                ).spec_hh_b1()
                &&& forall|j: int|
                    valid_location(j) && j != loc ==> final(self).word_at(j) == old(
                        self,
                    ).word_at(j)
                &&& forall|j: int|
                    valid_location(j) ==> final(self).level_at(j) == old(self).level_at(j)
            },
            !valid_location(loc as int) ==> {
                &&& r == Err::<(), TexError>(TexError::InvalidLocation)
                &&& *final(self) == *old(self)
            },
    {
        if loc < ACTIVE_BASE || loc > EQTB_SIZE {
            return Err(TexError::InvalidLocation);
        }
        let mut w = self.eqtb.get(loc as usize);
        w.b0 = eq_type;
        w.set_hh_rh(value);
        self.eqtb.set(loc as usize, w);
        Ok(())
    }

    /// Reads the whole cell at `loc`, for callers that use the full-word
    /// views.
    pub fn word_read(&self, loc: u16) -> (r: MemoryWord)
        requires
            self.wf(),
            valid_location(loc as int),
        ensures
            r == self.word_at(loc as int),
    {
        self.eqtb.get(loc as usize)
    }

    /// Replaces the whole cell at `loc`.
    pub fn word_write(&mut self, loc: u16, w: MemoryWord)
        requires
            old(self).wf(),
            valid_location(loc as int),
        ensures
            final(self).wf(),
            final(self).word_at(loc as int) == w,
            forall|j: int|
                valid_location(j) && j != loc ==> final(self).word_at(j) == old(self).word_at(j),
            forall|j: int| valid_location(j) ==> final(self).level_at(j) == old(self).level_at(j),
    {
        self.eqtb.set(loc as usize, w);
    }

    /// Reads the definition level at `loc`.
    pub fn level_read(&self, loc: u16) -> (r: u8)
        requires
            self.wf(),
            valid_location(loc as int),
        ensures
            r == self.level_at(loc as int),
    {
        self.xeq_level.get(loc as usize)
    }

    /// Resets every definition level to the outermost level, leaving every
    /// cell alone.
    pub fn reset_levels(&mut self)
        requires
            old(self).wf(),
        ensures
            final(self).wf(),
            forall|j: int| valid_location(j) ==> final(self).level_at(j) == LEVEL_ONE,
            forall|j: int| valid_location(j) ==> final(self).word_at(j) == old(self).word_at(j),
    {
        let mut loc: u16 = ACTIVE_BASE;
        while loc <= EQTB_SIZE
            invariant
                old(self).wf(),
                self.wf(),
                ACTIVE_BASE <= loc <= EQTB_SIZE + 1,
                forall|j: int| ACTIVE_BASE <= j < loc ==> self.level_at(j) == LEVEL_ONE,
                forall|j: int| valid_location(j) ==> self.word_at(j) == old(self).word_at(j),
            decreases EQTB_SIZE + 1 - loc,
        {
            let ghost prev = *self;
            self.xeq_level.set(loc as usize, LEVEL_ONE);
            proof {
                assert forall|j: int| ACTIVE_BASE <= j < loc + 1 implies self.level_at(j)
                    == LEVEL_ONE by {
                    if j < loc {
                        assert(self.xeq_level.spec_index(j) == prev.xeq_level.spec_index(j));
                        assert(prev.level_at(j) == LEVEL_ONE);
                    } else {
                        assert(self.xeq_level.spec_index(j) == LEVEL_ONE);
                    }
                }
            }
            loc = loc + 1;
        }
    }

    /// Exports the cells for bulk saving, lowest location first.
    pub fn export_words(&self) -> (r: Vec<MemoryWord>)
        requires
            self.wf(),
        ensures
            r@.len() == EQTB_SIZE - ACTIVE_BASE + 1,
            forall|k: int| 0 <= k < r@.len() ==> r@[k] == self.word_at(ACTIVE_BASE + k),
    {
        self.eqtb.to_vec()
    }

    /// Exports the definition levels for bulk saving, lowest location
    /// first.
    pub fn export_levels(&self) -> (r: Vec<u8>)
        requires
            self.wf(),
        ensures
            r@.len() == EQTB_SIZE - ACTIVE_BASE + 1,
            forall|k: int| 0 <= k < r@.len() ==> r@[k] == self.level_at(ACTIVE_BASE + k),
    {
        self.xeq_level.to_vec()
    }

    /// Bulk-loads a previously saved table.  Both arrays must cover the
    /// whole location space; anything else fails with `InvalidLocation`.
    pub fn import(words: Vec<MemoryWord>, levels: Vec<u8>) -> (r: Result<
        EquivalenceTable,
        TexError,
    >)
        ensures
            words@.len() == EQTB_SIZE - ACTIVE_BASE + 1 && levels@.len() == EQTB_SIZE - ACTIVE_BASE
                + 1 ==> {
                &&& r is Ok
                &&& r->Ok_0.wf()
                &&& forall|loc: int|
                    valid_location(loc) ==> r->Ok_0.word_at(loc) == words@[loc - ACTIVE_BASE]
                &&& forall|loc: int|
                    valid_location(loc) ==> r->Ok_0.level_at(loc) == levels@[loc - ACTIVE_BASE]
            },
            !(words@.len() == EQTB_SIZE - ACTIVE_BASE + 1 && levels@.len() == EQTB_SIZE
                - ACTIVE_BASE + 1) ==> r == Err::<EquivalenceTable, TexError>(
                TexError::InvalidLocation,
            ),
    {
        let expected: usize = (EQTB_SIZE - ACTIVE_BASE + 1) as usize;
        if words.len() != expected || levels.len() != expected {
            return Err(TexError::InvalidLocation);
        }
        Ok(
            EquivalenceTable {
                eqtb: Array::from_vec(ACTIVE_BASE as usize, EQTB_SIZE as usize, words),
                xeq_level: Array::from_vec(ACTIVE_BASE as usize, EQTB_SIZE as usize, levels),
            },
        )
    }

    /// Sets the definition level at `loc`; called only by the save
    /// mechanism, which owns level policy.
    pub fn level_write(&mut self, loc: u16, level: u8)
        requires
            old(self).wf(),
            valid_location(loc as int),
        ensures
            final(self).wf(),
            final(self).level_at(loc as int) == level,
            forall|j: int|
                valid_location(j) && j != loc ==> final(self).level_at(j) == old(self).level_at(j),
            forall|j: int| valid_location(j) ==> final(self).word_at(j) == old(self).word_at(j),
    {
        self.xeq_level.set(loc as usize, level);
    }
}

} // verus!
