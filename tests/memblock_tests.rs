use memblock::MemBlock;

fn fill_all(block: &mut MemBlock, value: u32) {
    let (w, h) = block.size();
    for y in 0..h {
        for x in 0..w {
            block.write((x, y), value);
        }
    }
}

#[test]
fn new_is_zero_filled() {
    let block = MemBlock::new((3, 4));
    assert_eq!(block.size(), (3, 4));
    assert_eq!(block.as_bytes().len(), 3 * 4 * 4);
    assert!(block.as_bytes().iter().all(|b| *b == 0));
    for y in 0..4 {
        for x in 0..3 {
            assert_eq!(block.read((x, y)), 0);
        }
    }
}

#[test]
fn new_with_one_zero_dimension_is_empty() {
    let block = MemBlock::new((0, 7));
    assert_eq!(block.size(), (0, 7));
    assert!(block.as_bytes().is_empty());
}

#[test]
fn new_with_value_fills_every_cell() {
    let block = MemBlock::new_with_value((4, 3), 0xDEADBEEF);
    assert_eq!(block.size(), (4, 3));
    for y in 0..3 {
        for x in 0..4 {
            assert_eq!(block.read((x, y)), 0xDEADBEEF);
        }
    }
    assert_eq!(&block.as_bytes()[0..8], &[0xDE, 0xAD, 0xBE, 0xEF, 0xDE, 0xAD, 0xBE, 0xEF]);
}

#[test]
fn new_with_value_zero_dimensions() {
    let block = MemBlock::new_with_value((0, 0), 0x01020304);
    assert_eq!(block.size(), (0, 0));
    assert!(block.as_bytes().is_empty());
}

#[test]
fn write_then_read_round_trips() {
    let mut block = MemBlock::new((3, 3));
    for v in [0u32, 1, 0x80000000, 0xFFFFFFFF, 0x12345678, 0x00FF00FF] {
        block.write((2, 1), v);
        assert_eq!(block.read((2, 1)), v);
    }
}

#[test]
fn write_leaves_other_cells_alone() {
    let mut block = MemBlock::new_with_value((3, 3), 0x0A0B0C0D);
    block.write((1, 1), 0xFFFFFFFF);
    for y in 0..3 {
        for x in 0..3 {
            let expected = if (x, y) == (1, 1) { 0xFFFFFFFF } else { 0x0A0B0C0D };
            assert_eq!(block.read((x, y)), expected);
        }
    }
}

#[test]
fn write_stores_most_significant_byte_first() {
    let mut block = MemBlock::new((3, 2));
    block.write((2, 1), 0x12345678);
    let base = (2 + 1 * 3) * 4;
    assert_eq!(&block.as_bytes()[base..base + 4], &[0x12, 0x34, 0x56, 0x78]);
    assert_eq!(block.as_bytes().iter().filter(|b| **b != 0).count(), 4);
}

#[test]
fn read_packs_raw_bytes_most_significant_first() {
    let mut block = MemBlock::new((2, 2));
    let bytes = block.as_bytes_mut();
    bytes[4] = 0xAB;
    bytes[5] = 0xCD;
    bytes[6] = 0x01;
    bytes[7] = 0x23;
    assert_eq!(block.read((1, 0)), 0xABCD0123);
    assert_eq!(block.read((0, 0)), 0);
}

#[test]
fn dma_partial_clip() {
    let mut dest = MemBlock::new((5, 5));
    let src = MemBlock::new_with_value((2, 2), 0xFFFFFFFF);
    dest.dma((4, 4), &src);
    assert_eq!(dest.size(), (5, 5));
    for y in 0..5 {
        for x in 0..5 {
            let expected = if (x, y) == (4, 4) { 0xFFFFFFFF } else { 0 };
            assert_eq!(dest.read((x, y)), expected);
        }
    }
}

#[test]
fn dma_full_containment() {
    let mut dest = MemBlock::new((5, 5));
    let mut src = MemBlock::new((2, 2));
    fill_all(&mut src, 0xFFFFFFFF);
    dest.dma((0, 1), &src);
    for y in 0..5 {
        for x in 0..5 {
            let inside = x < 2 && (1..3).contains(&y);
            let expected = if inside { 0xFFFFFFFF } else { 0 };
            assert_eq!(dest.read((x, y)), expected);
        }
    }
}

#[test]
fn dma_places_each_source_cell() {
    let mut dest = MemBlock::new((4, 3));
    let mut src = MemBlock::new((2, 2));
    src.write((0, 0), 1);
    src.write((1, 0), 2);
    src.write((0, 1), 3);
    src.write((1, 1), 4);
    dest.dma((2, 1), &src);
    assert_eq!(dest.read((2, 1)), 1);
    assert_eq!(dest.read((3, 1)), 2);
    assert_eq!(dest.read((2, 2)), 3);
    assert_eq!(dest.read((3, 2)), 4);
    assert_eq!(dest.read((1, 1)), 0);
    assert_eq!(dest.read((2, 0)), 0);
}

#[test]
fn dma_fully_outside_changes_nothing() {
    let mut dest = MemBlock::new_with_value((3, 3), 0x11223344);
    let before = dest.as_bytes().to_vec();
    let src = MemBlock::new_with_value((2, 2), 0xFFFFFFFF);
    dest.dma((3, 0), &src);
    assert_eq!(dest.as_bytes(), &before[..]);
    dest.dma((0, 3), &src);
    assert_eq!(dest.as_bytes(), &before[..]);
    dest.dma((usize::MAX, usize::MAX), &src);
    assert_eq!(dest.as_bytes(), &before[..]);
    assert_eq!(dest.size(), (3, 3));
}

#[test]
fn dma_of_empty_source_changes_nothing() {
    let mut dest = MemBlock::new_with_value((2, 2), 7);
    let before = dest.as_bytes().to_vec();
    let src = MemBlock::new((0, 3));
    dest.dma((0, 0), &src);
    assert_eq!(dest.as_bytes(), &before[..]);
}

#[test]
fn table_text_format() {
    let mut block = MemBlock::new((2, 2));
    block.write((1, 0), 0xABCDEF01);
    block.write((0, 1), 0x0000002A);
    let text = String::from_utf8(block.table_text()).unwrap();
    assert_eq!(text, " 00000000 ABCDEF01\n 0000002A 00000000\n");
}

#[test]
fn table_text_of_empty_rows() {
    let block = MemBlock::new((0, 2));
    assert_eq!(block.table_text(), b"\n\n".to_vec());
}

#[test]
fn clone_is_independent_copy() {
    let mut original = MemBlock::new_with_value((2, 3), 0x01020304);
    let copy = original.clone();
    original.write((1, 2), 0xCAFEBABE);
    assert_eq!(copy.size(), (2, 3));
    assert_eq!(copy.read((1, 2)), 0x01020304);
    assert_eq!(original.read((1, 2)), 0xCAFEBABE);
}
