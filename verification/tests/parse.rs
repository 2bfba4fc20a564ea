use bmap_parser::Bmap;
use bmap_parser::BmapBuilderError;
use bmap_parser::XmlError;
use sha2::Digest;
use sha2::Sha256;

fn hex_of(digest: &[u8]) -> String {
    let mut s = String::new();
    for b in digest {
        s.push_str(&format!("{:02x}", b));
    }
    s
}

/// A document with 1025 blocks of 4096 bytes and ranges at blocks
/// 0, 8, 32, 128 and 512, each covering blocks `b` through `2 * b`, each
/// checksummed with the digest of the decimal text of its first block index.
fn simple_document() -> String {
    let mut ranges_xml = String::new();
    let mut block = 0u64;
    loop {
        let digest = Sha256::digest(format!("{}", block).as_bytes());
        let body = if block == 0 {
            String::from("0")
        } else {
            format!("{}-{}", block, 2 * block)
        };
        ranges_xml.push_str(&format!(
            "        <Range chksum=\"{}\"> {} </Range>\n",
            hex_of(&digest),
            body
        ));
        block = if block == 0 { 8 } else { block * 4 };
        if block == 2048 {
            break;
        }
    }
    format!(
        "<?xml version=\"1.0\" ?>\n\
         <!-- a generated block map -->\n\
         <bmap version=\"2.0\">\n\
         \x20   <ImageSize> {} </ImageSize>\n\
         \x20   <BlockSize> 4096 </BlockSize>\n\
         \x20   <BlocksCount> 1025 </BlocksCount>\n\
         \x20   <MappedBlocksCount> 680 </MappedBlocksCount>\n\
         \x20   <ChecksumType> sha256 </ChecksumType>\n\
         \x20   <BmapFileChecksum> {} </BmapFileChecksum>\n\
         \x20   <BlockMap>\n\
         {}\
         \x20   </BlockMap>\n\
         </bmap>\n",
        1025u64 * 4096,
        "0".repeat(64),
        ranges_xml
    )
}

#[test]
fn parse() {
    let xml = simple_document();
    let bmap = Bmap::from_xml(&xml).unwrap();

    assert_eq!(4096, bmap.block_size());
    assert_eq!(1025, bmap.blocks());
    assert_eq!(1025 * 4096, bmap.image_size());
    assert_eq!(680, bmap.mapped_blocks());

    let mut block = 0;
    for range in bmap.block_map() {
        assert_eq!(block * 4096, range.offset());
        assert_eq!((block + 1) * 4096, range.length());

        let digest = Sha256::digest(format!("{}", block).as_bytes());
        assert_eq!(digest.as_slice(), range.checksum().as_slice());

        block = if block == 0 { 8 } else { block * 4 };
    }
    assert_eq!(2048, block);
}

#[test]
fn parse_unknown_checksum_type() {
    let xml = simple_document().replace("sha256", "md5");
    match Bmap::from_xml(&xml) {
        Err(XmlError::UnknownChecksumType(t)) => assert_eq!("md5", t),
        other => panic!("expected UnknownChecksumType, got {:?}", other),
    }
}

#[test]
fn parse_invalid_checksum_hex() {
    // replace the first checksum digit with a non-hex character
    let xml = simple_document().replacen("chksum=\"", "chksum=\"g", 1);
    match Bmap::from_xml(&xml) {
        Err(XmlError::InvalidChecksum(_)) => {}
        other => panic!("expected InvalidChecksum, got {:?}", other),
    }
}

#[test]
fn parse_missing_scalar_is_structural() {
    let full = simple_document();
    let start = full.find("    <ImageSize>").unwrap();
    let end = full.find("</ImageSize>\n").unwrap() + "</ImageSize>\n".len();
    let xml = format!("{}{}", &full[..start], &full[end..]);
    match Bmap::from_xml(&xml) {
        Err(XmlError::XmlParsError(_)) => {}
        other => panic!("expected XmlParsError, got {:?}", other),
    }
}

#[test]
fn parse_single_index_range() {
    let xml = format!(
        "<bmap version=\"2.0\">\n\
         <ImageSize>8192</ImageSize>\n\
         <BlockSize>4096</BlockSize>\n\
         <BlocksCount>2</BlocksCount>\n\
         <MappedBlocksCount>1</MappedBlocksCount>\n\
         <ChecksumType>sha256</ChecksumType>\n\
         <BmapFileChecksum>x</BmapFileChecksum>\n\
         <BlockMap>\n\
         <Range chksum=\"{}\"> 1 </Range>\n\
         </BlockMap>\n\
         </bmap>\n",
        "ab".repeat(32)
    );
    let bmap = Bmap::from_xml(&xml).unwrap();
    assert_eq!(1, bmap.block_map().len());
    assert_eq!(4096, bmap.block_map()[0].offset());
    assert_eq!(4096, bmap.block_map()[0].length());
}

#[test]
fn builder_error_carried_through() {
    // a builder misses every field when built directly
    let builder = Bmap::builder();
    match builder.build() {
        Err(BmapBuilderError::MissingImageSize) => {}
        other => panic!("expected MissingImageSize, got {:?}", other),
    }
}

#[test]
fn parse_range_byte_offsets() {
    let xml = format!(
        "<bmap version=\"2.0\">\n\
         <ImageSize>{}</ImageSize>\n\
         <BlockSize>4096</BlockSize>\n\
         <BlocksCount>2048</BlocksCount>\n\
         <MappedBlocksCount>128</MappedBlocksCount>\n\
         <ChecksumType>sha256</ChecksumType>\n\
         <BmapFileChecksum>{}</BmapFileChecksum>\n\
         <BlockMap>\n\
         <Range chksum=\"{}\"> 0-7 </Range>\n\
         <Range chksum=\"{}\"> 8-31 </Range>\n\
         <Range chksum=\"{}\"> 32-127 </Range>\n\
         </BlockMap>\n\
         </bmap>\n",
        2048u64 * 4096,
        "0".repeat(64),
        "00".repeat(32),
        "11".repeat(32),
        "22".repeat(32)
    );
    let bmap = Bmap::from_xml(&xml).unwrap();
    let ranges = bmap.block_map();
    assert_eq!(3, ranges.len());
    assert_eq!((0, 32768), (ranges[0].offset(), ranges[0].length()));
    assert_eq!((32768, 98304), (ranges[1].offset(), ranges[1].length()));
    assert_eq!((131072, 393216), (ranges[2].offset(), ranges[2].length()));
}
