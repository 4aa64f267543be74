use fanwatch::mask::{
    EventKind, EventMask, ATTRIBUTE_CHANGE_BIT, CLOSE_AFTER_WRITE_BIT, CREATE_BIT, DELETE_BIT,
    EXTENDED_BITS, KNOWN_BITS, MODIFY_BIT, OPEN_BIT,
};

const ALL_KINDS: [EventKind; 6] = [
    EventKind::AttributeChange,
    EventKind::Open,
    EventKind::Modify,
    EventKind::CloseAfterWrite,
    EventKind::Create,
    EventKind::Delete,
];

#[test]
fn kind_bits_have_their_values() {
    assert_eq!(EventKind::Open.bit(), 0x1);
    assert_eq!(EventKind::Modify.bit(), 0x2);
    assert_eq!(EventKind::AttributeChange.bit(), 0x4);
    assert_eq!(EventKind::CloseAfterWrite.bit(), 0x8);
    assert_eq!(EventKind::Create.bit(), 0x100);
    assert_eq!(EventKind::Delete.bit(), 0x200);
    assert_eq!(OPEN_BIT, 0x1);
    assert_eq!(MODIFY_BIT, 0x2);
    assert_eq!(ATTRIBUTE_CHANGE_BIT, 0x4);
    assert_eq!(CLOSE_AFTER_WRITE_BIT, 0x8);
    assert_eq!(CREATE_BIT, 0x100);
    assert_eq!(DELETE_BIT, 0x200);
}

#[test]
fn known_bits_are_the_six_kind_bits() {
    let mut all: u64 = 0;
    for kind in ALL_KINDS {
        all |= kind.bit();
    }
    assert_eq!(all, KNOWN_BITS);
    assert_eq!(KNOWN_BITS, 0x30f);
    assert_eq!(EXTENDED_BITS, 0x304);
}

#[test]
fn extended_kinds_are_metadata_and_directory_entries() {
    assert!(EventKind::AttributeChange.is_extended());
    assert!(EventKind::Create.is_extended());
    assert!(EventKind::Delete.is_extended());
    assert!(!EventKind::Open.is_extended());
    assert!(!EventKind::Modify.is_extended());
    assert!(!EventKind::CloseAfterWrite.is_extended());
}

#[test]
fn empty_mask_holds_nothing() {
    let mask = EventMask::empty();
    assert_eq!(mask.bits(), 0);
    assert!(mask.is_empty());
    assert_eq!(mask.kinds(), Vec::<EventKind>::new());
    for kind in ALL_KINDS {
        assert!(!mask.contains(kind));
    }
}

#[test]
fn mask_of_one_kind() {
    for kind in ALL_KINDS {
        let mask = EventMask::of(kind);
        assert_eq!(mask.bits(), kind.bit());
        assert_eq!(mask.kinds(), vec![kind]);
        for other in ALL_KINDS {
            assert_eq!(mask.contains(other), other == kind);
        }
    }
}

#[test]
fn kinds_come_in_reporting_order() {
    let mask = EventMask::from_bits(KNOWN_BITS);
    assert_eq!(mask.kinds(), ALL_KINDS.to_vec());
}

#[test]
fn attribute_change_is_reported_first() {
    let mask = EventMask::from_bits(0x1 | 0x4 | 0x8);
    assert_eq!(
        mask.kinds(),
        vec![EventKind::AttributeChange, EventKind::Open, EventKind::CloseAfterWrite]
    );
}

#[test]
fn multi_bit_mask_reports_every_bit() {
    let mask = EventMask::from_bits(0x2 | 0x8);
    assert_eq!(mask.kinds(), vec![EventKind::Modify, EventKind::CloseAfterWrite]);
}

#[test]
fn noise_bits_stand_for_no_kind() {
    let mask = EventMask::from_bits(0x4000_0010);
    assert_eq!(mask.bits(), 0x4000_0010);
    assert!(mask.is_empty());
    assert_eq!(mask.kinds(), Vec::<EventKind>::new());
    let mixed = EventMask::from_bits(0x4000_0012);
    assert!(!mixed.is_empty());
    assert_eq!(mixed.kinds(), vec![EventKind::Modify]);
    assert_eq!(mixed.known().bits(), 0x2);
}

#[test]
fn kinds_agree_with_contains_for_every_combination() {
    for bits in 0u64..0x400 {
        let mask = EventMask::from_bits(bits);
        let kinds = mask.kinds();
        for kind in ALL_KINDS {
            assert_eq!(kinds.contains(&kind), bits & kind.bit() != 0);
            assert_eq!(mask.contains(kind), bits & kind.bit() != 0);
        }
        let mut seen = kinds.clone();
        seen.dedup();
        assert_eq!(seen, kinds);
        assert_eq!(kinds.len() as u32, (bits & KNOWN_BITS).count_ones());
    }
}

#[test]
fn from_kinds_ignores_order_and_repeats() {
    let mask = EventMask::from_kinds(&[
        EventKind::CloseAfterWrite,
        EventKind::Open,
        EventKind::CloseAfterWrite,
        EventKind::Modify,
    ]);
    assert_eq!(mask.bits(), 0xb);
    assert_eq!(
        mask.kinds(),
        vec![EventKind::Open, EventKind::Modify, EventKind::CloseAfterWrite]
    );
    assert_eq!(EventMask::from_kinds(&[]).bits(), 0);
}

#[test]
fn with_and_without_change_one_kind() {
    let mask = EventMask::empty().with(EventKind::Open).with(EventKind::Delete);
    assert_eq!(mask.bits(), 0x201);
    assert_eq!(mask.with(EventKind::Open).bits(), 0x201);
    assert_eq!(mask.without(EventKind::Open).bits(), 0x200);
    assert_eq!(mask.without(EventKind::Modify).bits(), 0x201);
}

#[test]
fn union_intersection_and_difference() {
    let a = EventMask::from_bits(0x3);
    let b = EventMask::from_bits(0x6);
    assert_eq!(a.union(b).bits(), 0x7);
    assert_eq!(a.intersect(b).bits(), 0x2);
    assert_eq!(a.difference(b).bits(), 0x1);
    assert_eq!(b.difference(a).bits(), 0x4);
    assert_eq!(a.union(b).kinds(), vec![EventKind::AttributeChange, EventKind::Open, EventKind::Modify]);
}

#[test]
fn reduced_mask_drops_the_extended_kinds() {
    let wide = EventMask::from_kinds(&[
        EventKind::AttributeChange,
        EventKind::Open,
        EventKind::CloseAfterWrite,
        EventKind::Create,
    ]);
    assert!(wide.has_extended());
    let narrow = wide.without_extended();
    assert!(!narrow.has_extended());
    assert_eq!(narrow.bits(), 0x9);
    assert_eq!(narrow.kinds(), vec![EventKind::Open, EventKind::CloseAfterWrite]);
    assert!(!EventMask::from_bits(0xb).has_extended());
    assert!(EventMask::from_bits(0x200).has_extended());
}
