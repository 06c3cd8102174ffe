use tex_core::arena::{CONTRIB_HEAD, PAGE_HEAD};
use tex_core::eqtb::{
    region_of, EquivRegion2Code, EquivRegion3Code, EquivRegion4Loc, EquivRegion6Code, RegionTag,
    ACTIVE_BASE, CAT_CODE_BASE, COUNT_BASE, CUR_FONT_LOC, DEL_CODE_BASE, DIMEN_BASE, EQTB_SIZE,
    FROZEN_CONTROL_SEQUENCE, FROZEN_NULL_FONT, GLUE_BASE, HASH_BASE, INT_BASE, LC_CODE_BASE,
    LOCAL_BASE, MATH_CODE_BASE, MATH_FONT_BASE, MU_SKIP_BASE, NULL_CS, SCALED_BASE, SF_CODE_BASE,
    SINGLE_BASE, SKIP_BASE, TOKS_BASE, UC_CODE_BASE, UNDEFINED_CONTROL_SEQUENCE,
};
use tex_core::save::GroupCode;
use tex_core::state::{
    banner, consistency_check, History, Interaction, ListStateRecord, TexState, TokenList,
};
use tex_core::word::MemoryWord;

#[test]
fn constants_are_consistent() {
    assert_eq!(consistency_check(), 0);
}

#[test]
fn banner_names_the_version() {
    assert_eq!(banner(), "This is TeX, Version 3.1415926");
}

#[test]
fn new_state_then_initialize() {
    let mut s = TexState::new();
    assert_eq!(s.ready_already, 0);
    assert_eq!(s.history.value(), History::FatalErrorStop.value());
    s.initialize();
    // printable characters stand for themselves
    assert_eq!(s.xchr[65], b'A');
    assert_eq!(s.xchr[0], b' ');
    assert_eq!(s.xord[b'z' as usize], b'z');
    assert_eq!(s.xord[1], 127);
    assert_eq!(s.interaction.value(), Interaction::ErrorStopMode.value());
    assert!(s.deletions_allowed);
    assert!(s.set_box_allowed);
    assert_eq!(s.error_count, 0);
    assert!(s.ok_to_interrupt);
    assert_eq!(s.curlist.mode_field, 1);
    assert_eq!(s.curlist.head_field, CONTRIB_HEAD);
    assert_eq!(s.curlist.tail_field, CONTRIB_HEAD);
    assert_eq!(s.curlist.aux_field.as_int32(), -65536000);
    assert_eq!(s.page_tail, PAGE_HEAD);
    assert_eq!(s.link(PAGE_HEAD as usize), 0);
    assert_eq!(s.last_glue, 65535);
    assert!(s.no_new_control_sequence);
    assert_eq!(s.saves.current_level(), 1);
    assert_eq!(s.saves.current_group(), GroupCode::BottomLevel);
    assert_eq!(s.top_mark(), 0);
    assert_eq!(s.split_bot_mark(), 0);
    assert_eq!(s.cur_val, 0);
    assert_eq!(s.radix, 0);
}

#[test]
fn final_cleanup_reports_the_run() {
    let mut s = TexState::new();
    s.history = History::Spotless;
    assert_eq!(s.final_cleanup(), 0);
    s.history = History::WarningIssued;
    assert_eq!(s.final_cleanup(), 0);
    s.history = History::ErrorMessageIssued;
    assert_eq!(s.final_cleanup(), 1);
    s.history = History::FatalErrorStop;
    assert_eq!(s.final_cleanup(), 1);
    assert_eq!(s.ready_already, 0);
}

#[test]
fn node_field_accessors() {
    let mut s = TexState::new();
    s.initialize();
    let p = s.arena.allocate_variable(7).unwrap();
    s.arena.set(p, MemoryWord::new()).unwrap();
    s.arena.set(p + 1, MemoryWord::new_i32(100)).unwrap();
    s.arena.set(p + 2, MemoryWord::new_i32(-7)).unwrap();
    s.arena.set(p + 3, MemoryWord::new_i32(55)).unwrap();
    s.arena.set(p + 4, MemoryWord::new_i32(2)).unwrap();
    let mut list_word = MemoryWord::new();
    list_word.set_hh_rh(0);
    list_word.set_hh_lh(0x0201);
    s.arena.set(p + 5, list_word).unwrap();
    assert_eq!(s.width(p as usize), 100);
    assert_eq!(s.depth(p as usize), -7);
    assert_eq!(s.height(p as usize), 55);
    assert_eq!(s.shift_amount(p as usize), 2);
    assert_eq!(s.list_ptr(p as usize), 0);
    assert_eq!(s.glue_sign(p as usize), 1);
    assert_eq!(s.glue_order(p as usize), 2);
    // link and info live in the node's first cell
    s.set_link(p as usize, 12);
    s.set_info(p as usize, 34);
    assert_eq!(s.link(p as usize), 12);
    assert_eq!(s.info(p as usize), 34);
    assert_eq!(s.a_type(p as usize), 34);
    assert_eq!(s.subtype(p as usize), 0);
}

#[test]
fn dimension_registers_and_parameters() {
    let mut s = TexState::new();
    s.initialize();
    s.eqtb.word_write(SCALED_BASE + 9, MemoryWord::new_i32(65536));
    assert_eq!(s.dimen(9), 65536);
    s.eqtb.word_write(DIMEN_BASE, MemoryWord::new_i32(20 * 65536));
    assert_eq!(s.dimen_par(0), 20 * 65536);
    assert_eq!(s.par_indent(), 20 * 65536);
}

#[test]
fn enum_values() {
    assert_eq!(Interaction::BatchMode.value(), 0);
    assert_eq!(Interaction::NonstopMode.value(), 1);
    assert_eq!(Interaction::ScrollMode.value(), 2);
    assert_eq!(Interaction::ErrorStopMode.value(), 3);
    assert_eq!(History::Spotless.value(), 0);
    assert_eq!(History::WarningIssued.value(), 1);
    assert_eq!(History::ErrorMessageIssued.value(), 2);
    assert_eq!(History::FatalErrorStop.value(), 3);
    assert_eq!(TokenList::CsTokenFlag.value(), 0o7777);
    assert_eq!(TokenList::LeftBraceToken.value(), 0o400);
    assert_eq!(TokenList::RightBraceToken.value(), 0o1000);
    assert_eq!(TokenList::SpaceToken.value(), 0o5040);
    assert_eq!(TokenList::EndMatchToken.value(), 0o7000);
    let r = ListStateRecord::new();
    assert_eq!(r.mode_field, 0);
    assert_eq!(r.head_field, 0);
}

#[test]
fn region_landmark_values() {
    assert_eq!(EquivRegion2Code::ActiveBase.value(), 1);
    assert_eq!(EquivRegion2Code::SingleBase.value(), 257);
    assert_eq!(EquivRegion2Code::NullCs.value(), 513);
    assert_eq!(EquivRegion2Code::HashBase.value(), 514);
    assert_eq!(EquivRegion2Code::FrozenControlSequence.value(), 2614);
    assert_eq!(EquivRegion2Code::FrozenNullFont.value(), 2624);
    assert_eq!(EquivRegion2Code::UndefinedControlSequence.value(), 2881);
    assert_eq!(EquivRegion2Code::GlueBase.value(), 2882);
    assert_eq!(EquivRegion3Code::LineSkipCode.value(), 0);
    assert_eq!(EquivRegion3Code::ThickMuSkipCode.value(), 17);
    assert_eq!(EquivRegion4Loc::ParShapeLoc.value(), LOCAL_BASE);
    assert_eq!(EquivRegion4Loc::ToksBase.value(), TOKS_BASE);
    assert_eq!(EquivRegion4Loc::CurFontLoc.value(), CUR_FONT_LOC);
    assert_eq!(EquivRegion6Code::ParIndentCode.value(), 0);
    assert_eq!(EquivRegion6Code::EmergencyStretchCode.value(), 20);
}

#[test]
fn region_boundaries_are_off_by_one_correct() {
    let boundaries = [
        (ACTIVE_BASE, RegionTag::ActiveChar),
        (SINGLE_BASE, RegionTag::SingleChar),
        (NULL_CS, RegionTag::NullCs),
        (HASH_BASE, RegionTag::HashEntry),
        (FROZEN_CONTROL_SEQUENCE, RegionTag::FrozenCs),
        (FROZEN_NULL_FONT, RegionTag::FontId),
        (UNDEFINED_CONTROL_SEQUENCE, RegionTag::UndefinedCs),
        (GLUE_BASE, RegionTag::GlueParam),
        (SKIP_BASE, RegionTag::SkipRegister),
        (MU_SKIP_BASE, RegionTag::MuSkipRegister),
        (LOCAL_BASE, RegionTag::TokenParam),
        (TOKS_BASE, RegionTag::ToksRegister),
        (CUR_FONT_LOC, RegionTag::CurFont),
        (MATH_FONT_BASE, RegionTag::MathFont),
        (CAT_CODE_BASE, RegionTag::CatCode),
        (LC_CODE_BASE, RegionTag::LcCode),
        (UC_CODE_BASE, RegionTag::UcCode),
        (SF_CODE_BASE, RegionTag::SfCode),
        (MATH_CODE_BASE, RegionTag::MathCode),
        (INT_BASE, RegionTag::IntParam),
        (COUNT_BASE, RegionTag::CountRegister),
        (DEL_CODE_BASE, RegionTag::DelCode),
        (DIMEN_BASE, RegionTag::DimenParam),
        (SCALED_BASE, RegionTag::DimenRegister),
    ];
    for (i, (base, tag)) in boundaries.iter().enumerate() {
        // the first location of each region carries its tag ...
        assert_eq!(region_of(*base), *tag);
        // ... and the location just before it belongs to the region before
        if i > 0 {
            assert_ne!(region_of(*base - 1), *tag);
            assert_eq!(region_of(*base - 1), boundaries[i - 1].1);
        }
    }
    assert_eq!(region_of(UNDEFINED_CONTROL_SEQUENCE), RegionTag::UndefinedCs);
    assert_eq!(region_of(UNDEFINED_CONTROL_SEQUENCE - 1), RegionTag::FontId);
    assert_eq!(region_of(EQTB_SIZE), RegionTag::DimenRegister);
}
