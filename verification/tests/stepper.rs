use bmap_parser::Bmap;
use bmap_parser::CopyAction;
use bmap_parser::CopyEngine;
use bmap_parser::CopyError;
use bmap_parser::CopyEvent;
use bmap_parser::HashType;
use bmap_parser::HashValue;
use bmap_parser::MemSink;
use bmap_parser::MemSource;
use sha2::Digest;
use sha2::Sha256;

fn map_for(image: &[u8], ranges: &[(u64, u64)]) -> Bmap {
    let mut b = Bmap::builder();
    b.image_size(image.len() as u64);
    b.block_size(4096);
    b.blocks((image.len() as u64).div_ceil(4096));
    b.mapped_blocks(ranges.len() as u64);
    b.checksum_type(HashType::Sha256);
    for &(offset, length) in ranges {
        let bytes = &image[offset as usize..(offset + length) as usize];
        let digest: [u8; 32] = Sha256::digest(bytes).into();
        b.add_byte_range(offset, length, HashValue::Sha256(digest));
    }
    b.build().unwrap()
}

fn pattern(len: usize) -> Vec<u8> {
    (0..len).map(|i| (i * 11 + 5) as u8).collect()
}

/// Drives the cooperative engine against in-memory source and destination,
/// as an external scheduler would against real resources.
fn drive(map: &Bmap, source: &[u8], dest: &mut [u8]) -> Result<(), CopyError> {
    let mut engine = CopyEngine::new(map);
    let mut src_pos = 0usize;
    let mut dst_pos = 0usize;
    let mut ev = CopyEvent::Started;
    loop {
        assert!(engine.accepts_event(&ev));
        match engine.step(ev) {
            CopyAction::Advance(n) => {
                // a real driver flushes the sink here, then seeks both sides
                if src_pos + n as usize > source.len() {
                    ev = CopyEvent::SourceEnded;
                } else {
                    src_pos += n as usize;
                    dst_pos += n as usize;
                    ev = CopyEvent::Advanced;
                }
            }
            CopyAction::Read(max) => {
                let n = max.min(source.len() - src_pos);
                let chunk = source[src_pos..src_pos + n].to_vec();
                src_pos += n;
                ev = CopyEvent::Data(chunk);
            }
            CopyAction::Write(data) => {
                dest[dst_pos..dst_pos + data.len()].copy_from_slice(&data);
                dst_pos += data.len();
                ev = CopyEvent::Written;
            }
            CopyAction::Finished(r) => {
                return r;
            }
        }
    }
}

#[test]
fn engine_copies_and_verifies() {
    let src = pattern(4096);
    let ranges = [(512u64, 1024u64), (2048, 512), (3000, 96)];
    let map = map_for(&src, &ranges);

    let mut dest = vec![0xBB; 4096];
    drive(&map, &src, &mut dest).unwrap();

    for i in 0..4096usize {
        let mapped = ranges
            .iter()
            .any(|&(o, l)| (o as usize) <= i && i < (o + l) as usize);
        if mapped {
            assert_eq!(src[i], dest[i]);
        } else {
            assert_eq!(0xBB, dest[i]);
        }
    }
}

#[test]
fn engine_rejects_flipped_byte() {
    let src = pattern(4096);
    let ranges = [(512u64, 1024u64), (2048, 512)];
    let map = map_for(&src, &ranges);

    let mut bad = src.clone();
    bad[2200] ^= 0x80;
    let mut dest = vec![0u8; 4096];
    assert_eq!(Err(CopyError::ChecksumError), drive(&map, &bad, &mut dest));
}

#[test]
fn engine_reports_truncated_source() {
    let src = pattern(4096);
    let ranges = [(512u64, 1024u64), (2048, 512)];
    let map = map_for(&src, &ranges);

    let mut dest = vec![0u8; 4096];
    assert_eq!(
        Err(CopyError::UnexpectedEof),
        drive(&map, &src[..2100], &mut dest)
    );
}

#[test]
fn engine_empty_map_finishes_at_once() {
    let src = pattern(64);
    let map = map_for(&src, &[]);
    let mut engine = CopyEngine::new(&map);
    match engine.step(CopyEvent::Started) {
        CopyAction::Finished(Ok(())) => {}
        other => panic!("expected immediate success, got {:?}", other),
    }
}

#[test]
fn engine_reports_driver_failures() {
    let src = pattern(4096);
    let ranges = [(512u64, 1024u64)];
    let map = map_for(&src, &ranges);

    let mut engine = CopyEngine::new(&map);
    match engine.step(CopyEvent::Started) {
        CopyAction::Advance(512) => {}
        other => panic!("expected an advance by 512, got {:?}", other),
    }
    match engine.step(CopyEvent::SinkFailed) {
        CopyAction::Finished(Err(CopyError::WriteError)) => {}
        other => panic!("expected a write error, got {:?}", other),
    }
    // a finished engine accepts no further event
    assert!(!engine.accepts_event(&CopyEvent::Advanced));

    // a fresh walk aborted by a source failure reports a read error
    let mut engine = CopyEngine::new(&map);
    engine.step(CopyEvent::Started);
    match engine.step(CopyEvent::SourceFailed) {
        CopyAction::Finished(Err(CopyError::ReadError)) => {}
        other => panic!("expected a read error, got {:?}", other),
    }
}

#[test]
fn stepwise_copy_matches_blocking_copy() {
    let src = pattern(4096);
    let ranges = [(512u64, 1024u64), (2048, 512)];
    let map = map_for(&src, &ranges);

    let mut blocking_in = MemSource::new(src.clone());
    let mut blocking_out = MemSink::new(vec![0u8; 4096]);
    let a = bmap_parser::copy(&mut blocking_in, &mut blocking_out, &map);

    let mut stepwise_in = MemSource::new(src.clone());
    let mut stepwise_out = MemSink::new(vec![0u8; 4096]);
    let b = bmap_parser::copy_stepwise(&mut stepwise_in, &mut stepwise_out, &map);

    assert_eq!(a, b);
    assert_eq!(blocking_out.into_inner(), stepwise_out.into_inner());

    // identical error taxonomy on a corrupted source
    let mut bad = src.clone();
    bad[600] ^= 0x10;
    let mut blocking_in = MemSource::new(bad.clone());
    let mut blocking_out = MemSink::new(vec![0u8; 4096]);
    let a = bmap_parser::copy(&mut blocking_in, &mut blocking_out, &map);
    let mut stepwise_in = MemSource::new(bad);
    let mut stepwise_out = MemSink::new(vec![0u8; 4096]);
    let b = bmap_parser::copy_stepwise(&mut stepwise_in, &mut stepwise_out, &map);
    assert_eq!(Err(CopyError::ChecksumError), a);
    assert_eq!(a, b);
}
