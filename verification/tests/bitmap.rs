use rcore_kernel::fs::bitmap::{decomposition, Bitmap, BitmapBlock};

fn disk(n: usize) -> Vec<BitmapBlock> {
    vec![[0u64; 64]; n]
}

#[test]
fn decomposition_splits_bit_numbers() {
    assert_eq!(decomposition(0), (0, 0, 0));
    assert_eq!(decomposition(4095), (0, 63, 63));
    assert_eq!(decomposition(4096 + 64 * 3 + 5), (1, 3, 5));
}

#[test]
fn size_is_bits_per_block_times_blocks() {
    assert_eq!(Bitmap::new(2, 3).size(), 3 * 4096);
}

#[test]
fn allocates_lowest_free_bits_in_order() {
    let mut d = disk(4);
    let bm = Bitmap::new(1, 2);
    assert_eq!(bm.allocate(&mut d), Some(0));
    assert_eq!(bm.allocate(&mut d), Some(1));
    assert_eq!(bm.allocate(&mut d), Some(2));
    assert_eq!(d[1][0], 0b111);
    // the blocks outside the bitmap are untouched
    assert_eq!(d[0], [0u64; 64]);
    assert_eq!(d[3], [0u64; 64]);
}

#[test]
fn skips_full_words_and_blocks() {
    let mut d = disk(2);
    d[0] = [u64::MAX; 64];
    d[1][0] = u64::MAX;
    d[1][1] = 0b1011;
    let bm = Bitmap::new(0, 2);
    assert_eq!(bm.allocate(&mut d), Some(4096 + 64 + 2));
    assert_eq!(d[1][1], 0b1111);
}

#[test]
fn full_bitmap_gives_none() {
    let mut d = vec![[u64::MAX; 64]; 1];
    let bm = Bitmap::new(0, 1);
    assert_eq!(bm.allocate(&mut d), None);
    assert_eq!(d[0], [u64::MAX; 64]);
}

#[test]
fn dealloc_frees_the_bit_for_reuse() {
    let mut d = disk(1);
    let bm = Bitmap::new(0, 1);
    for i in 0..70 {
        assert_eq!(bm.allocate(&mut d), Some(i));
    }
    bm.dealloc(&mut d, 5);
    assert_eq!(d[0][0], u64::MAX & !(1 << 5));
    assert_eq!(bm.allocate(&mut d), Some(5));
    bm.dealloc(&mut d, 69);
    bm.dealloc(&mut d, 68);
    assert_eq!(d[0][1], 0b1111);
    assert_eq!(bm.allocate(&mut d), Some(68));
}

#[test]
fn allocate_then_dealloc_restores_the_disk() {
    let mut d = disk(2);
    d[1][7] = 0x00ff;
    let before = d.clone();
    let bm = Bitmap::new(1, 1);
    let b = bm.allocate(&mut d).unwrap();
    assert_eq!(b, 0);
    bm.dealloc(&mut d, b);
    assert_eq!(d, before);
}

#[test]
fn dealloc_after_allocate_gives_the_disk_back() {
    let mut d = disk(2);
    d[0][0] = 0b1011;
    let before = d.clone();
    let bm = Bitmap::new(0, 2);
    let b = bm.allocate(&mut d).unwrap();
    assert_eq!(b, 2);
    bm.dealloc(&mut d, b);
    assert_eq!(d, before);
}
