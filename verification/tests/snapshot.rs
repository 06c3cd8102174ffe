use tex_core::arena::NodeArena;
use tex_core::eqtb::{EquivalenceTable, COUNT_BASE};
use tex_core::hash::ControlSeqTable;
use tex_core::state::TexState;
use tex_core::word::MemoryWord;

#[test]
fn arena_snapshot_round_trip() {
    let mut a = NodeArena::new();
    let p = a.allocate_variable(5).unwrap();
    a.set(p, MemoryWord::new_i32(31415)).unwrap();
    let q = a.allocate_variable(3).unwrap();
    a.free_variable(q, 3).unwrap();
    let c = a.allocate_single().unwrap();
    let cells = a.export_cells();
    let free = a.export_free_list();
    let avail = a.export_avail();
    let b = NodeArena::import(cells, a.lo_mem_max(), a.hi_mem_min(), free, avail).unwrap();
    assert_eq!(b.get(p).unwrap().as_int32(), 31415);
    assert_eq!(b.lo_mem_max(), a.lo_mem_max());
    assert_eq!(b.hi_mem_min(), a.hi_mem_min());
    assert_eq!(b.variable_free_cells(), a.variable_free_cells());
    assert!(b.check_consistency());
    // the reloaded arena keeps allocating where the saved one would
    let mut b = b;
    assert_eq!(b.allocate_variable(3).unwrap(), q);
    let _keep = c;
}

#[test]
fn arena_import_refuses_corruption() {
    let a = NodeArena::new();
    // overlapping free blocks are refused whole
    let r = NodeArena::import(
        a.export_cells(),
        100,
        a.hi_mem_min(),
        vec![(30, 10), (35, 4)],
        Vec::new(),
    );
    assert!(r.is_err());
    // a duplicated cell on the one-cell free stack is refused
    let r = NodeArena::import(
        a.export_cells(),
        a.lo_mem_max(),
        29000,
        Vec::new(),
        vec![29001, 29002, 29001],
    );
    assert!(r.is_err());
    // region boundaries must not cross
    let r = NodeArena::import(a.export_cells(), 20000, 15000, Vec::new(), Vec::new());
    assert!(r.is_err());
}

#[test]
fn eqtb_snapshot_round_trip() {
    let mut eq = EquivalenceTable::new();
    eq.write(COUNT_BASE, 4, 123).unwrap();
    let words = eq.export_words();
    let levels = eq.export_levels();
    let eq2 = EquivalenceTable::import(words, levels).unwrap();
    assert_eq!(eq2.read(COUNT_BASE).unwrap(), (4, 1, 123));
    // a truncated snapshot is refused
    assert!(EquivalenceTable::import(Vec::new(), Vec::new()).is_err());
}

#[test]
fn hash_snapshot_round_trip() {
    let mut t = ControlSeqTable::new();
    let foo = t.lookup_or_create(b"foo").unwrap();
    let bar = t.lookup_or_create(b"bar").unwrap();
    let names = t.export_names();
    let mut t2 = ControlSeqTable::import(names).unwrap();
    // ids survive the round trip: the reloaded table resolves the same
    assert_eq!(t2.lookup_or_create(b"foo").unwrap(), foo);
    assert_eq!(t2.lookup_or_create(b"bar").unwrap(), bar);
    assert_eq!(t2.text_of(foo).unwrap(), b"foo".to_vec());
}

#[test]
fn hash_import_refuses_duplicates() {
    let mut t = ControlSeqTable::new();
    t.lookup_or_create(b"dup").unwrap();
    let mut names = t.export_names();
    // plant the same name in a second slot
    let mut free_slot = None;
    for (k, slot) in names.iter().enumerate() {
        if k < 2100 && slot.is_none() {
            free_slot = Some(k);
            break;
        }
    }
    names[free_slot.unwrap()] = Some(b"dup".to_vec());
    assert!(ControlSeqTable::import(names).is_err());
}

#[test]
fn state_snapshot_loads_as_a_unit() {
    let mut s = TexState::new();
    s.initialize();
    let p = s.arena.allocate_variable(4).unwrap();
    s.arena.set(p, MemoryWord::new_i32(-7)).unwrap();
    s.eqtb.write(COUNT_BASE + 2, 1, 55).unwrap();
    let id = s.hash.lookup_or_create(b"snapshot").unwrap();
    let cells = s.arena.export_cells();
    let free = s.arena.export_free_list();
    let avail = s.arena.export_avail();
    let lo = s.arena.lo_mem_max();
    let hi = s.arena.hi_mem_min();
    let words = s.eqtb.export_words();
    let levels = s.eqtb.export_levels();
    let names = s.hash.export_names();

    let mut fresh = TexState::new();
    fresh
        .load_snapshot(cells, lo, hi, free, avail, words, levels, names)
        .unwrap();
    assert_eq!(fresh.arena.get(p).unwrap().as_int32(), -7);
    assert_eq!(fresh.eqtb.read(COUNT_BASE + 2).unwrap(), (1, 1, 55));
    assert_eq!(fresh.hash.lookup_or_create(b"snapshot").unwrap(), id);
    assert_eq!(fresh.saves.current_level(), 1);

    // a snapshot with one corrupt component is refused whole
    let mut other = TexState::new();
    let r = other.load_snapshot(
        s.arena.export_cells(),
        lo,
        hi,
        vec![(30, 10), (35, 4)],
        Vec::new(),
        s.eqtb.export_words(),
        s.eqtb.export_levels(),
        s.hash.export_names(),
    );
    assert!(r.is_err());
    assert_eq!(other.hash.lookup_existing(b"snapshot"), None);
}
