use tex_core::arena::{NodeArena, HI_MEM_STAT_MIN, LO_MEM_STAT_MAX, MEM_TOP};
use tex_core::word::{FourQuarters, MemoryWord, TwoHalves};
use tex_core::TexError;

#[test]
fn int_view_round_trip() {
    assert_eq!(MemoryWord::new_i32(0).as_int32(), 0);
    assert_eq!(MemoryWord::new_i32(12345).as_int32(), 12345);
    assert_eq!(MemoryWord::new_i32(-65536000).as_int32(), -65536000);
    assert_eq!(MemoryWord::new_i32(i32::MAX).as_int32(), i32::MAX);
    assert_eq!(MemoryWord::new_i32(i32::MIN).as_int32(), i32::MIN);
    assert_eq!(MemoryWord::new_i32(-1).as_int32(), -1);
}

#[test]
fn scaled_view_equals_int_view() {
    let w = MemoryWord::new_i32(-98765);
    assert_eq!(w.sc(), w.as_int32());
}

#[test]
fn half_word_views() {
    let mut w = MemoryWord::new();
    w.set_hh_rh(0xBEEF);
    w.set_hh_lh(0x1234);
    assert_eq!(w.hh_rh(), 0xBEEF);
    assert_eq!(w.hh_lh(), 0x1234);
    w.set_hh_rh(7);
    assert_eq!(w.hh_rh(), 7);
    assert_eq!(w.hh_lh(), 0x1234);
}

#[test]
fn quarter_word_views() {
    let mut w = MemoryWord::new();
    w.set_hh_lh(0x0201);
    w.set_hh_rh(0x0403);
    assert_eq!(w.hh_b0(), 1);
    assert_eq!(w.hh_b1(), 2);
    let q: FourQuarters = w.qqqq();
    assert_eq!(q.b0, 1);
    assert_eq!(q.b1, 2);
    assert_eq!(q.b2, 3);
    assert_eq!(q.b3, 4);
}

#[test]
fn two_halves_views() {
    let mut h = TwoHalves::new();
    assert_eq!(h.lh(), 0);
    assert_eq!(h.rh(), 0);
    h.set_next(300);
    h.set_text(512);
    assert_eq!(h.next(), 300);
    assert_eq!(h.text(), 512);
    h.set_lh(1);
    h.set_rh(2);
    assert_eq!(h.lh(), 1);
    assert_eq!(h.rh(), 2);
}

// The configured capacity of a fresh arena: everything between the static
// bottom area and the static top heads.
const FREE_CAPACITY: u32 = (HI_MEM_STAT_MIN - LO_MEM_STAT_MAX - 1) as u32;

#[test]
fn allocator_round_trip() {
    let mut a = NodeArena::new();
    assert_eq!(a.variable_free_cells(), FREE_CAPACITY);
    let p1 = a.allocate_variable(7).unwrap();
    let p2 = a.allocate_variable(4).unwrap();
    let p3 = a.allocate_variable(7).unwrap();
    let p4 = a.allocate_variable(2).unwrap();
    // no two live allocations overlap
    let runs = [(p1, 7u16), (p2, 4), (p3, 7), (p4, 2)];
    for i in 0..runs.len() {
        for j in 0..runs.len() {
            if i != j {
                let (x, sx) = runs[i];
                let (y, sy) = runs[j];
                assert!(x + sx <= y || y + sy <= x);
            }
        }
    }
    assert_eq!(a.variable_free_cells(), FREE_CAPACITY - 20);
    a.free_variable(p2, 4).unwrap();
    a.free_variable(p4, 2).unwrap();
    a.free_variable(p1, 7).unwrap();
    a.free_variable(p3, 7).unwrap();
    // after freeing everything the whole capacity is free again
    assert_eq!(a.variable_free_cells(), FREE_CAPACITY);
    assert!(a.check_consistency());
}

#[test]
fn coalescing_adjacent_blocks() {
    let mut a = NodeArena::new();
    let p1 = a.allocate_variable(6).unwrap();
    let p2 = a.allocate_variable(6).unwrap();
    // the two runs are address-adjacent
    assert_eq!(p2, p1 + 6);
    a.free_variable(p1, 6).unwrap();
    a.free_variable(p2, 6).unwrap();
    // freeing both yields one block of the combined size: allocating it
    // succeeds, and best fit hands back exactly that block
    let p3 = a.allocate_variable(12).unwrap();
    assert_eq!(p3, p1);
}

#[test]
fn coalescing_merges_in_both_directions() {
    let mut a = NodeArena::new();
    let p1 = a.allocate_variable(5).unwrap();
    let p2 = a.allocate_variable(5).unwrap();
    let p3 = a.allocate_variable(5).unwrap();
    let _guard = a.allocate_variable(5).unwrap();
    // free the outer runs first, then the middle one: all three merge
    a.free_variable(p1, 5).unwrap();
    a.free_variable(p3, 5).unwrap();
    a.free_variable(p2, 5).unwrap();
    let p = a.allocate_variable(15).unwrap();
    assert_eq!(p, p1);
}

#[test]
fn single_cell_round_trip() {
    let mut a = NodeArena::new();
    let in_use_before = (a.mem_end() - a.hi_mem_min() + 1) as usize - a.single_cells_free();
    let p = a.allocate_single().unwrap();
    assert_eq!(p, HI_MEM_STAT_MIN - 1);
    a.free_single(p).unwrap();
    let in_use_after = (a.mem_end() - a.hi_mem_min() + 1) as usize - a.single_cells_free();
    assert_eq!(in_use_before, in_use_after);
    // the freed cell is handed out again
    let q = a.allocate_single().unwrap();
    assert_eq!(q, p);
    a.free_single(q).unwrap();
    let in_use_last = (a.mem_end() - a.hi_mem_min() + 1) as usize - a.single_cells_free();
    assert_eq!(in_use_before, in_use_last);
}

#[test]
fn out_of_memory_is_reported() {
    let mut a = NodeArena::new();
    assert_eq!(a.allocate_variable(30000), Err(TexError::OutOfMemory));
    let p = a.allocate_variable(FREE_CAPACITY as u16).unwrap();
    assert_eq!(a.allocate_variable(1), Err(TexError::OutOfMemory));
    assert_eq!(a.allocate_single(), Err(TexError::OutOfMemory));
    a.free_variable(p, FREE_CAPACITY as u16).unwrap();
    assert!(a.allocate_variable(1).is_ok());
}

#[test]
fn invalid_addresses_are_rejected() {
    let mut a = NodeArena::new();
    // the static bottom area cannot be freed
    assert_eq!(a.free_variable(0, 4), Err(TexError::InvalidAddress));
    // a run beyond the used part of the region cannot be freed
    assert_eq!(a.free_variable(25, 4), Err(TexError::InvalidAddress));
    // a double free is detected
    let p = a.allocate_variable(4).unwrap();
    a.free_variable(p, 4).unwrap();
    assert_eq!(a.free_variable(p, 4), Err(TexError::InvalidAddress));
    // the static top heads cannot be freed as single cells
    assert_eq!(a.free_single(MEM_TOP), Err(TexError::InvalidAddress));
    assert_eq!(a.free_single(100), Err(TexError::InvalidAddress));
}

#[test]
fn cell_access_is_checked() {
    let mut a = NodeArena::new();
    // a cell in the untouched gap between the regions is not live
    assert_eq!(a.get(15000), Err(TexError::InvalidAddress));
    assert_eq!(a.set(15000, MemoryWord::new()), Err(TexError::InvalidAddress));
    // static cells are live from the start
    assert_eq!(a.get(0).unwrap(), MemoryWord::new());
    // allocated cells are live and hold what was written
    let p = a.allocate_variable(3).unwrap();
    let w = MemoryWord::new_i32(777);
    a.set(p + 1, w).unwrap();
    assert_eq!(a.get(p + 1).unwrap().as_int32(), 777);
    // a freed cell is no longer live
    a.free_variable(p, 3).unwrap();
    assert_eq!(a.get(p + 1), Err(TexError::InvalidAddress));
}
