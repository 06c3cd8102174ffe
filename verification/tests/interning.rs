use tex_core::array::Array;
use tex_core::eqtb::{
    FROZEN_CONTROL_SEQUENCE, FROZEN_NULL_FONT, FROZEN_RELAX, HASH_BASE,
    UNDEFINED_CONTROL_SEQUENCE,
};
use tex_core::hash::{font_id_text, hash_is_full, set_font_id_text, ControlSeqTable};
use tex_core::word::TwoHalves;

#[test]
fn lookup_is_deterministic() {
    let mut t = ControlSeqTable::new();
    let foo1 = t.lookup_or_create(b"foo").unwrap();
    let foo2 = t.lookup_or_create(b"foo").unwrap();
    assert_eq!(foo1, foo2);
    let bar = t.lookup_or_create(b"bar").unwrap();
    assert_ne!(foo1, bar);
}

#[test]
fn text_of_returns_the_interned_name() {
    let mut t = ControlSeqTable::new();
    let id = t.lookup_or_create(b"foo").unwrap();
    assert_eq!(t.text_of(id).unwrap(), b"foo".to_vec());
}

#[test]
fn lookup_existing_never_creates() {
    let mut t = ControlSeqTable::new();
    assert_eq!(t.lookup_existing(b"macro"), None);
    let id = t.lookup_or_create(b"macro").unwrap();
    assert_eq!(t.lookup_existing(b"macro"), Some(id));
    assert_eq!(t.lookup_existing(b"other"), None);
}

#[test]
fn created_ids_stay_stable_under_later_creations() {
    let mut t = ControlSeqTable::new();
    let mut ids = Vec::new();
    for k in 0..200u32 {
        let name = format!("name{}", k);
        ids.push(t.lookup_or_create(name.as_bytes()).unwrap());
    }
    for k in 0..200u32 {
        let name = format!("name{}", k);
        assert_eq!(t.lookup_or_create(name.as_bytes()).unwrap(), ids[k as usize]);
        assert_eq!(t.text_of(ids[k as usize]).unwrap(), name.as_bytes().to_vec());
    }
    // all ids distinct and ordinary
    for i in 0..ids.len() {
        assert!(HASH_BASE <= ids[i] && ids[i] < FROZEN_CONTROL_SEQUENCE);
        for j in 0..i {
            assert_ne!(ids[i], ids[j]);
        }
    }
}

#[test]
fn colliding_names_get_distinct_ids() {
    // a one-byte name hashes to its byte, a two-byte name to twice the
    // first byte plus the second: these two both hash to slot 10
    let mut t = ControlSeqTable::new();
    let a = t.lookup_or_create(&[10u8]).unwrap();
    let b = t.lookup_or_create(&[5u8, 0]).unwrap();
    assert_eq!(b, a + 1);
    assert_ne!(a, b);
    assert_eq!(t.lookup_or_create(&[10u8]).unwrap(), a);
    assert_eq!(t.lookup_or_create(&[5u8, 0]).unwrap(), b);
}

#[test]
fn frozen_ids_are_reserved() {
    let mut t = ControlSeqTable::new();
    assert!(t.is_frozen(FROZEN_RELAX));
    assert!(t.is_frozen(FROZEN_CONTROL_SEQUENCE));
    assert!(t.is_frozen(FROZEN_NULL_FONT));
    assert!(!t.is_frozen(HASH_BASE));
    assert!(!t.is_frozen(UNDEFINED_CONTROL_SEQUENCE));
    assert_eq!(t.text_of(FROZEN_RELAX).unwrap(), b"relax".to_vec());
    // an ordinary creation never lands on a frozen id
    let id = t.lookup_or_create(b"relax").unwrap();
    assert!(id < FROZEN_CONTROL_SEQUENCE);
    assert_ne!(id, FROZEN_RELAX);
}

#[test]
fn empty_and_long_names_intern() {
    let mut t = ControlSeqTable::new();
    let e = t.lookup_or_create(b"").unwrap();
    assert_eq!(t.text_of(e).unwrap(), Vec::<u8>::new());
    let long = [7u8; 300];
    let l = t.lookup_or_create(&long).unwrap();
    assert_ne!(e, l);
    assert_eq!(t.lookup_or_create(&long).unwrap(), l);
}

#[test]
fn hash_full_is_reported() {
    let mut t = ControlSeqTable::new();
    let slots = (FROZEN_CONTROL_SEQUENCE - HASH_BASE) as u32;
    for k in 0..slots {
        let name = format!("cs{}", k);
        assert!(t.lookup_or_create(name.as_bytes()).is_ok());
    }
    // every ordinary slot is taken: a new name cannot be interned ...
    assert_eq!(
        t.lookup_or_create(b"one name too many"),
        Err(tex_core::TexError::HashFull)
    );
    // ... but existing names still resolve
    assert!(t.lookup_or_create(b"cs0").is_ok());
    assert_eq!(t.lookup_existing(b"one name too many"), None);
}

#[test]
fn hash_is_full_compares_the_pointers() {
    assert!(hash_is_full(HASH_BASE, HASH_BASE));
    assert!(!hash_is_full(HASH_BASE + 1, HASH_BASE));
}

#[test]
fn font_id_text_round_trip() {
    let mut hash: Array<TwoHalves> = Array::new(
        HASH_BASE as usize,
        (UNDEFINED_CONTROL_SEQUENCE - 1) as usize,
        TwoHalves::new(),
    );
    set_font_id_text(&mut hash, 3, 77);
    assert_eq!(font_id_text(&hash, 3), 77);
    assert_eq!(font_id_text(&hash, 4), 0);
}
