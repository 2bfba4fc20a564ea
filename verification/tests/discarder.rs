use bmap_parser::ByteSource;
use bmap_parser::Discarder;
use bmap_parser::MemSource;
use bmap_parser::SeekForward;

#[test]
fn discard() {
    let mut data = Vec::with_capacity(256);
    for byte in 0u8..=255 {
        data.push(byte);
    }

    let mut discarder = Discarder::new(MemSource::new(data));
    let _ = &[0u64, 5, 16, 31, 63, 200, 255]
        .iter()
        .fold(0, |pos, offset| {
            let mut buf = vec![0u8; 1];
            discarder.seek_forward(offset - pos).unwrap();
            assert_eq!(1, discarder.read(&mut buf, 1).unwrap());
            assert_eq!(*offset, buf[0] as u64);
            *offset + 1
        });
}

#[test]
fn discarder_discard() {
    let mut data = Vec::with_capacity(256);
    for byte in 0u8..=255 {
        data.push(byte);
    }

    let mut discarder = Discarder::new(MemSource::new(data));
    let _ = &[0u64, 5, 16, 31, 63, 200, 255]
        .iter()
        .fold(0, |pos, offset| {
            let mut buf = vec![0u8; 1];
            discarder.seek_forward(offset - pos).unwrap();
            assert_eq!(1, discarder.read(&mut buf, 1).unwrap());
            assert_eq!(*offset, buf[0] as u64);
            *offset + 1
        });
}

#[test]
fn discard_past_end_reports_eof() {
    let data = vec![1u8, 2, 3, 4];
    let mut discarder = Discarder::new(MemSource::new(data));
    assert!(discarder.seek_forward(3).is_ok());
    assert!(discarder.seek_forward(2).is_err());
}

#[test]
fn discarder_into_inner() {
    let data = vec![9u8, 8, 7];
    let discarder = Discarder::new(MemSource::new(data.clone()));
    let inner = discarder.into_inner();
    assert_eq!(data, inner.into_inner());
}
