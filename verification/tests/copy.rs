use bmap_parser::run_script;
use bmap_parser::Bmap;
use bmap_parser::CopyError;
use bmap_parser::Discarder;
use bmap_parser::HashType;
use bmap_parser::HashValue;
use bmap_parser::MemSink;
use bmap_parser::MemSource;
use bmap_parser::SourceOp;
use sha2::Digest;
use sha2::Sha256;

/// A map over `image` with the given byte ranges, each checksummed with the
/// digest of the source bytes it covers.
fn map_for(image: &[u8], ranges: &[(u64, u64)]) -> Bmap {
    let mut b = Bmap::builder();
    b.image_size(image.len() as u64);
    b.block_size(4096);
    b.blocks((image.len() as u64).div_ceil(4096));
    b.mapped_blocks(ranges.len() as u64);
    b.checksum_type(HashType::Sha256);
    for &(offset, length) in ranges {
        let bytes = &image[offset as usize..(offset + length) as usize];
        let digest: [u8; 32] = Sha256::digest(bytes).into();
        b.add_byte_range(offset, length, HashValue::Sha256(digest));
    }
    b.build().unwrap()
}

fn pattern(len: usize) -> Vec<u8> {
    (0..len).map(|i| (i * 7 + 3) as u8).collect()
}

#[test]
fn copy() {
    let src = pattern(4096);
    let ranges = [(512u64, 1024u64), (2048, 512), (3000, 96)];
    let map = map_for(&src, &ranges);
    assert!(map.is_well_formed());

    let mut input = MemSource::new(src.clone());
    let mut output = MemSink::new(vec![0xAA; 4096]);
    bmap_parser::copy(&mut input, &mut output, &map).unwrap();
    assert_eq!(bmap_parser::HashType::Sha256, map.checksum_type());
    assert_eq!(ranges.len(), map.block_map().len());

    let out = output.into_inner();
    for i in 0..4096usize {
        let mapped = ranges
            .iter()
            .any(|&(o, l)| (o as usize) <= i && i < (o + l) as usize);
        if mapped {
            assert_eq!(src[i], out[i], "mapped byte {} must equal the source", i);
        } else {
            assert_eq!(0xAA, out[i], "unmapped byte {} must be untouched", i);
        }
    }
}

#[test]
fn copy_rejects_any_flipped_byte() {
    let src = pattern(4096);
    let ranges = [(512u64, 1024u64), (2048, 512)];
    let map = map_for(&src, &ranges);

    // flipping one byte inside any mapped range must fail the copy
    for &pos in &[512usize, 1000, 1535, 2048, 2300, 2559] {
        let mut bad = src.clone();
        bad[pos] ^= 0x01;
        let mut input = MemSource::new(bad);
        let mut output = MemSink::new(vec![0u8; 4096]);
        let r = bmap_parser::copy(&mut input, &mut output, &map);
        assert_eq!(Err(CopyError::ChecksumError), r, "flip at {}", pos);
    }
}

#[test]
fn copy_detects_truncated_source() {
    let src = pattern(4096);
    let ranges = [(512u64, 1024u64), (2048, 512)];
    let map = map_for(&src, &ranges);

    // the source ends in the middle of the second range
    let truncated = src[..2100].to_vec();
    let mut input = MemSource::new(truncated);
    let mut output = MemSink::new(vec![0u8; 4096]);
    let r = bmap_parser::copy(&mut input, &mut output, &map);
    assert_eq!(Err(CopyError::UnexpectedEof), r);
}

#[test]
fn copy_detects_truncation_during_discard_seek() {
    let src = pattern(4096);
    let ranges = [(2048u64, 512u64)];
    let map = map_for(&src, &ranges);

    // a sequential-only source that ends before the range even starts
    let truncated = src[..1024].to_vec();
    let mut input = Discarder::new(MemSource::new(truncated));
    let mut output = MemSink::new(vec![0u8; 4096]);
    let r = bmap_parser::copy(&mut input, &mut output, &map);
    assert_eq!(Err(CopyError::UnexpectedEof), r);
}

#[test]
fn copy_sequential_source_equals_random_access_source() {
    let src = pattern(4096);
    let ranges = [(512u64, 1024u64), (2048, 512)];
    let map = map_for(&src, &ranges);

    let mut ra_input = MemSource::new(src.clone());
    let mut ra_output = MemSink::new(vec![0u8; 4096]);
    bmap_parser::copy(&mut ra_input, &mut ra_output, &map).unwrap();

    let mut seq_input = Discarder::new(MemSource::new(src.clone()));
    let mut seq_output = MemSink::new(vec![0u8; 4096]);
    bmap_parser::copy(&mut seq_input, &mut seq_output, &map).unwrap();

    assert_eq!(ra_output.into_inner(), seq_output.into_inner());
}

#[test]
fn copy_empty_map_succeeds() {
    let src = pattern(1024);
    let map = map_for(&src, &[]);
    let mut input = MemSource::new(src);
    let mut output = MemSink::new(vec![7u8; 1024]);
    bmap_parser::copy(&mut input, &mut output, &map).unwrap();
    assert_eq!(vec![7u8; 1024], output.into_inner());
}

#[test]
fn copy_nobmap_streams_everything() {
    let src = pattern(3000);
    let mut input = MemSource::new(src.clone());
    let mut output = MemSink::new(vec![0u8; 3000]);
    bmap_parser::copy_nobmap(&mut input, &mut output).unwrap();
    assert_eq!(src, output.into_inner());
}

#[test]
fn copy_nobmap_write_error_when_sink_too_small() {
    let src = pattern(3000);
    let mut input = MemSource::new(src);
    let mut output = MemSink::new(vec![0u8; 1000]);
    let r = bmap_parser::copy_nobmap(&mut input, &mut output);
    assert_eq!(Err(CopyError::WriteError), r);
}

#[test]
fn forward_seek_equivalence() {
    let data = pattern(1000);
    let script = vec![
        SourceOp::Seek(5),
        SourceOp::Read(10),
        SourceOp::Seek(100),
        SourceOp::Read(50),
        SourceOp::Seek(0),
        SourceOp::Read(2000),
    ];

    let mut random_access = MemSource::new(data.clone());
    let mut sequential = Discarder::new(MemSource::new(data.clone()));

    let a = run_script(&mut random_access, &script).unwrap();
    let b = run_script(&mut sequential, &script).unwrap();
    assert_eq!(a, b);
    assert_eq!(10 + 50 + (1000 - 165), a.len());

    // a script that seeks past the end fails on both
    let overrun = vec![SourceOp::Read(10), SourceOp::Seek(2000)];
    let mut random_access = MemSource::new(data.clone());
    let mut sequential = Discarder::new(MemSource::new(data));
    assert!(run_script(&mut random_access, &overrun).is_none());
    assert!(run_script(&mut sequential, &overrun).is_none());
}
