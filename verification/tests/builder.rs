use bmap_parser::Bmap;
use bmap_parser::BmapBuilderError;
use bmap_parser::HashType;
use bmap_parser::HashValue;

fn zero_digest() -> HashValue {
    HashValue::Sha256([0; 32])
}

#[test]
fn build_succeeds_with_all_fields() {
    let mut b = Bmap::builder();
    b.image_size(4096 * 10);
    b.block_size(4096);
    b.blocks(10);
    b.mapped_blocks(4);
    b.checksum_type(HashType::Sha256);
    let map = b.build().unwrap();
    assert_eq!(4096 * 10, map.image_size());
    assert_eq!(4096, map.block_size());
    assert_eq!(10, map.blocks());
    assert_eq!(4, map.mapped_blocks());
    assert_eq!(HashType::Sha256, map.checksum_type());
    // an empty range list (a legitimately all-zero image) is accepted
    assert_eq!(0, map.block_map().len());
    assert!(map.is_well_formed());
}

#[test]
fn build_missing_image_size() {
    let mut b = Bmap::builder();
    b.block_size(4096);
    b.blocks(10);
    b.mapped_blocks(4);
    b.checksum_type(HashType::Sha256);
    assert!(matches!(b.build(), Err(BmapBuilderError::MissingImageSize)));
}

#[test]
fn build_missing_block_size() {
    let mut b = Bmap::builder();
    b.image_size(4096 * 10);
    b.blocks(10);
    b.mapped_blocks(4);
    b.checksum_type(HashType::Sha256);
    assert!(matches!(b.build(), Err(BmapBuilderError::MissingBlockSize)));
}

#[test]
fn build_missing_blocks() {
    let mut b = Bmap::builder();
    b.image_size(4096 * 10);
    b.block_size(4096);
    b.mapped_blocks(4);
    b.checksum_type(HashType::Sha256);
    assert!(matches!(b.build(), Err(BmapBuilderError::MissingBlocks)));
}

#[test]
fn build_missing_mapped_blocks() {
    let mut b = Bmap::builder();
    b.image_size(4096 * 10);
    b.block_size(4096);
    b.blocks(10);
    b.checksum_type(HashType::Sha256);
    assert!(matches!(b.build(), Err(BmapBuilderError::MissingMappedBlocks)));
}

#[test]
fn build_missing_checksum_type() {
    let mut b = Bmap::builder();
    b.image_size(4096 * 10);
    b.block_size(4096);
    b.blocks(10);
    b.mapped_blocks(4);
    assert!(matches!(b.build(), Err(BmapBuilderError::MissingChecksumType)));
}

#[test]
fn range_byte_offsets() {
    let mut b = Bmap::builder();
    b.image_size(2048 * 4096);
    b.block_size(4096);
    b.blocks(2048);
    b.mapped_blocks(128);
    b.checksum_type(HashType::Sha256);
    b.add_block_range(0, 7, zero_digest());
    b.add_block_range(8, 31, zero_digest());
    b.add_block_range(32, 127, zero_digest());
    let map = b.build().unwrap();
    let ranges = map.block_map();
    assert_eq!(3, ranges.len());
    assert_eq!(0, ranges[0].offset());
    assert_eq!(32768, ranges[0].length());
    assert_eq!(32768, ranges[1].offset());
    assert_eq!(98304, ranges[1].length());
    assert_eq!(131072, ranges[2].offset());
    assert_eq!(393216, ranges[2].length());
    assert!(map.is_well_formed());
}

#[test]
fn boundary_clamp() {
    // the image ends 100 bytes into block 10: the final range is clamped
    let image_size = 10 * 4096 + 100;
    let mut b = Bmap::builder();
    b.image_size(image_size);
    b.block_size(4096);
    b.blocks(11);
    b.mapped_blocks(3);
    b.checksum_type(HashType::Sha256);
    b.add_block_range(10, 12, zero_digest());
    let map = b.build().unwrap();
    let ranges = map.block_map();
    assert_eq!(10 * 4096, ranges[0].offset());
    assert_eq!(100, ranges[0].length());
}

#[test]
fn add_byte_range_appends_directly() {
    let mut b = Bmap::builder();
    b.image_size(10000);
    b.block_size(512);
    b.blocks(20);
    b.mapped_blocks(2);
    b.checksum_type(HashType::Sha256);
    b.add_byte_range(100, 200, zero_digest());
    b.add_byte_range(300, 50, zero_digest());
    let map = b.build().unwrap();
    let ranges = map.block_map();
    assert_eq!(100, ranges[0].offset());
    assert_eq!(200, ranges[0].length());
    assert_eq!(300, ranges[1].offset());
    assert_eq!(50, ranges[1].length());
}

#[test]
fn total_mapped_size_formula() {
    let mut b = Bmap::builder();
    b.image_size(4096 * 100);
    b.block_size(4096);
    b.blocks(100);
    b.mapped_blocks(37);
    b.checksum_type(HashType::Sha256);
    let map = b.build().unwrap();
    assert_eq!(4096 * 37, map.total_mapped_size());
}

#[test]
fn builder_error_messages() {
    assert_eq!("Image size missing", BmapBuilderError::MissingImageSize.message());
    assert_eq!("No block ranges", BmapBuilderError::NoBlockRanges.message());
}
