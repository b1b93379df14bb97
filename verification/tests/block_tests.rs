use boxel::block::Block;

#[test]
fn block_fields_round_trip() {
    for id in 0..1024u16 {
        for variant in 0..8u8 {
            for orientation in 0..8u8 {
                let b = Block::new(id, variant, orientation);
                assert_eq!(b.id(), id);
                assert_eq!(b.variant(), variant);
                assert_eq!(b.orientation(), orientation);
            }
        }
    }
}

#[test]
fn block_layout_is_id_then_variant_then_orientation() {
    assert_eq!(Block::new(1, 0, 0).0, 1);
    assert_eq!(Block::new(1023, 0, 0).0, 0x03ff);
    assert_eq!(Block::new(0, 1, 0).0, 1 << 10);
    assert_eq!(Block::new(0, 7, 0).0, 0x1c00);
    assert_eq!(Block::new(0, 0, 1).0, 1 << 13);
    assert_eq!(Block::new(0, 0, 7).0, 0xe000);
    assert_eq!(Block::new(5, 3, 6).0, 5 + 1024 * 3 + 8192 * 6);
    assert_eq!(Block::new(1023, 7, 7).0, 0xffff);
}

#[test]
fn block_constructor_truncates() {
    assert_eq!(Block::new(1024, 0, 0), Block(0));
    assert_eq!(Block::new(1025, 0, 0), Block(1));
    assert_eq!(Block::new(0xffff, 0, 0), Block(0x03ff));
    assert_eq!(Block::new(0, 8, 0), Block(0));
    assert_eq!(Block::new(0, 9, 0), Block::new(0, 1, 0));
    assert_eq!(Block::new(0, 255, 0), Block::new(0, 7, 0));
    assert_eq!(Block::new(0, 0, 8), Block(0));
    assert_eq!(Block::new(0, 0, 255), Block::new(0, 0, 7));
}

#[test]
fn block_accessors_read_any_value() {
    let b = Block(0xabcd);
    assert_eq!(b.id(), 0xabcd & 0x3ff);
    assert_eq!(b.variant(), ((0xabcdu16 >> 10) & 7) as u8);
    assert_eq!(b.orientation(), (0xabcdu16 >> 13) as u8);
}

#[test]
fn block_writers_keep_other_fields() {
    for raw in [0u16, 1, 0x03ff, 0x0400, 0x1c00, 0x2000, 0xe000, 0xabcd, 0xffff] {
        let mut b = Block(raw);
        let (id, variant, orientation) = (b.id(), b.variant(), b.orientation());
        b.set_id(777);
        assert_eq!((b.id(), b.variant(), b.orientation()), (777, variant, orientation));
        b.set_variant(5);
        assert_eq!((b.id(), b.variant(), b.orientation()), (777, 5, orientation));
        b.set_orientation(2);
        assert_eq!((b.id(), b.variant(), b.orientation()), (777, 5, 2));
        b.set_id(id);
        b.set_variant(variant);
        b.set_orientation(orientation);
        assert_eq!(b, Block(raw));
    }
}

#[test]
fn block_writers_truncate() {
    let mut b = Block::new(3, 2, 1);
    b.set_id(1024 + 9);
    assert_eq!(b, Block::new(9, 2, 1));
    b.set_variant(8 + 4);
    assert_eq!(b, Block::new(9, 4, 1));
    b.set_orientation(16 + 5);
    assert_eq!(b, Block::new(9, 4, 5));
}

#[test]
fn only_air_is_not_solid() {
    assert!(!Block(0).is_solid());
    assert!(!Block::default().is_solid());
    for raw in 1..=u16::MAX {
        assert!(Block(raw).is_solid());
    }
}
