use tex_core::eqtb::{region_of, EquivalenceTable, RegionTag, COUNT_BASE, EQTB_SIZE, LEVEL_ONE};
use tex_core::save::{GroupCode, SaveStack, SAVE_SIZE};
use tex_core::word::MemoryWord;
use tex_core::TexError;

fn value_word(v: u16) -> MemoryWord {
    let mut w = MemoryWord::new();
    w.set_hh_rh(v);
    w
}

#[test]
fn eqtb_read_and_write() {
    let mut eq = EquivalenceTable::new();
    let loc = COUNT_BASE + 3;
    assert_eq!(eq.read(loc).unwrap(), (0, LEVEL_ONE, 0));
    eq.write(loc, 9, 42).unwrap();
    assert_eq!(eq.read(loc).unwrap(), (9, LEVEL_ONE, 42));
    // a location outside the table is rejected, not read
    assert_eq!(eq.read(0), Err(TexError::InvalidLocation));
    assert_eq!(eq.read(EQTB_SIZE + 1), Err(TexError::InvalidLocation));
    assert_eq!(eq.write(0, 1, 1), Err(TexError::InvalidLocation));
}

#[test]
fn save_restore_round_trip() {
    let mut eq = EquivalenceTable::new();
    let mut sv = SaveStack::new();
    let loc = COUNT_BASE;
    sv.write_scoped(&mut eq, loc, value_word(10)).unwrap();
    let before = eq.read(loc).unwrap();
    sv.enter_group(GroupCode::SimpleGroup).unwrap();
    sv.write_scoped(&mut eq, loc, value_word(99)).unwrap();
    assert_eq!(eq.read(loc).unwrap().2, 99);
    let closed = sv.leave_group(&mut eq).unwrap();
    assert_eq!(closed, GroupCode::SimpleGroup);
    // the pre-group value and level are back, exactly
    assert_eq!(eq.read(loc).unwrap(), before);
    assert_eq!(sv.current_level(), 1);
    assert_eq!(sv.depth(), 0);
}

#[test]
fn one_save_per_group() {
    let mut eq = EquivalenceTable::new();
    let mut sv = SaveStack::new();
    let loc = COUNT_BASE + 7;
    sv.write_scoped(&mut eq, loc, value_word(5)).unwrap();
    sv.enter_group(GroupCode::HboxGroup).unwrap();
    sv.write_scoped(&mut eq, loc, value_word(6)).unwrap();
    let depth_after_first = sv.depth();
    sv.write_scoped(&mut eq, loc, value_word(7)).unwrap();
    // the second write in the same group pushes no second entry
    assert_eq!(sv.depth(), depth_after_first);
    sv.leave_group(&mut eq).unwrap();
    // the restored value is the pre-group one, not the first written one
    assert_eq!(eq.read(loc).unwrap().2, 5);
}

#[test]
fn nested_groups_keep_outer_values() {
    let mut eq = EquivalenceTable::new();
    let mut sv = SaveStack::new();
    let loc = COUNT_BASE + 1;
    sv.write_scoped(&mut eq, loc, value_word(1)).unwrap();
    sv.enter_group(GroupCode::SimpleGroup).unwrap();
    sv.write_scoped(&mut eq, loc, value_word(2)).unwrap();
    sv.enter_group(GroupCode::VboxGroup).unwrap();
    sv.write_scoped(&mut eq, loc, value_word(3)).unwrap();
    assert_eq!(sv.current_group(), GroupCode::VboxGroup);
    // closing the inner group restores the outer group's value
    assert_eq!(sv.leave_group(&mut eq).unwrap(), GroupCode::VboxGroup);
    assert_eq!(eq.read(loc).unwrap().2, 2);
    assert_eq!(sv.current_group(), GroupCode::SimpleGroup);
    // only closing the outer group restores the pre-group value
    assert_eq!(sv.leave_group(&mut eq).unwrap(), GroupCode::SimpleGroup);
    assert_eq!(eq.read(loc).unwrap().2, 1);
    assert_eq!(sv.current_group(), GroupCode::BottomLevel);
}

#[test]
fn deep_nesting_restores_layer_by_layer() {
    let mut eq = EquivalenceTable::new();
    let mut sv = SaveStack::new();
    let loc = COUNT_BASE + 11;
    sv.write_scoped(&mut eq, loc, value_word(0)).unwrap();
    for depth in 1..=50u16 {
        sv.enter_group(GroupCode::SimpleGroup).unwrap();
        sv.write_scoped(&mut eq, loc, value_word(depth)).unwrap();
        assert_eq!(sv.current_level(), (depth + 1) as u8);
    }
    for depth in (1..=50u16).rev() {
        assert_eq!(eq.read(loc).unwrap().2, depth);
        sv.leave_group(&mut eq).unwrap();
        assert_eq!(eq.read(loc).unwrap().2, depth - 1);
    }
    assert_eq!(sv.current_level(), 1);
    assert_eq!(sv.depth(), 0);
}

#[test]
fn unbalanced_group_is_detected() {
    let mut eq = EquivalenceTable::new();
    let mut sv = SaveStack::new();
    assert_eq!(sv.leave_group(&mut eq), Err(TexError::UnbalancedGroup));
}

#[test]
fn save_stack_overflow_is_reported() {
    let mut eq = EquivalenceTable::new();
    let mut sv = SaveStack::new();
    let mut overflowed = false;
    for _ in 0..SAVE_SIZE + 1 {
        if sv.enter_group(GroupCode::SimpleGroup).is_err() {
            overflowed = true;
            break;
        }
    }
    assert!(overflowed);
    // the stack is unchanged by the failed entry: the last opened group is
    // still current and can be left
    assert!(sv.leave_group(&mut eq).is_ok());
}

#[test]
fn scoped_write_checks_the_location() {
    let mut eq = EquivalenceTable::new();
    let mut sv = SaveStack::new();
    assert_eq!(
        sv.write_scoped(&mut eq, 0, value_word(1)),
        Err(TexError::InvalidLocation)
    );
    assert_eq!(
        sv.write_scoped(&mut eq, EQTB_SIZE + 1, value_word(1)),
        Err(TexError::InvalidLocation)
    );
}

#[test]
fn group_codes_round_trip() {
    let codes = [
        GroupCode::BottomLevel,
        GroupCode::SimpleGroup,
        GroupCode::HboxGroup,
        GroupCode::AdjustedHboxGroup,
        GroupCode::VboxGroup,
        GroupCode::VtopGroup,
        GroupCode::AlignGroup,
        GroupCode::NoAlignGroup,
        GroupCode::OutputGroup,
        GroupCode::MathGroup,
        GroupCode::DiscGroup,
        GroupCode::InsertGroup,
        GroupCode::VcenterGroup,
        GroupCode::MathChoiceGroup,
        GroupCode::SemiSimpleGroup,
        GroupCode::MathShiftGroup,
        GroupCode::MathLeftGroup,
    ];
    for (i, g) in codes.iter().enumerate() {
        assert_eq!(g.value() as usize, i);
        assert_eq!(GroupCode::from(i as u8), *g);
    }
}

#[test]
fn region_of_count_registers() {
    // every location of the count-register block carries the same tag
    for k in 0..256u16 {
        assert_eq!(region_of(COUNT_BASE + k), RegionTag::CountRegister);
    }
}
