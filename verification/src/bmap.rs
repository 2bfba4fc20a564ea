//! Block-map model: a validated aggregate of checksummed byte ranges plus
//! scalar metadata, and the builder that accumulates one during a parse.

use vstd::prelude::*;

use crate::hashes::HashType;
use crate::hashes::HashValue;

verus! {

/// Mathematical model of a [`BlockRange`].
pub struct RangeModel {
    pub offset: u64,
    pub length: u64,
    pub checksum: HashValue,
}

/// Mathematical model of a [`Bmap`].
pub struct BmapModel {
    pub image_size: u64,
    pub block_size: u64,
    pub blocks: u64,
    pub mapped_blocks: u64,
    pub checksum_type: HashType,
    pub ranges: Seq<RangeModel>,
}

/// Mathematical model of a [`BmapBuilder`].
pub struct BuilderModel {
    pub image_size: Option<u64>,
    pub block_size: Option<u64>,
    pub blocks: Option<u64>,
    pub mapped_blocks: Option<u64>,
    pub checksum_type: Option<HashType>,
    pub ranges: Seq<RangeModel>,
}

/// Ranges appear in ascending, non-overlapping offset order: each range ends
/// no later than the next one starts.  The copy engine relies on this; it
/// never seeks backward.
pub open spec fn ranges_ordered(ranges: Seq<RangeModel>) -> bool {
    forall|i: int|
        0 <= i && i + 1 < ranges.len() ==> ranges[i].offset + ranges[i].length <= ranges[i
            + 1].offset
}

/// No range extends past the end of the image.
pub open spec fn ranges_within(ranges: Seq<RangeModel>, image_size: u64) -> bool {
    forall|i: int| 0 <= i < ranges.len() ==> ranges[i].offset + ranges[i].length <= image_size
}

/// An immutable contiguous checksummed region of the image.
#[derive(Clone, Debug, PartialEq, Eq)]
pub struct BlockRange {
    offset: u64,
    length: u64,
    checksum: HashValue,
}

impl View for BlockRange {
    type V = RangeModel;

    closed spec fn view(&self) -> RangeModel {
        RangeModel { offset: self.offset, length: self.length, checksum: self.checksum }
    }
}

impl BlockRange {
    /// The digest declared for this range's bytes.
    pub fn checksum(&self) -> (r: HashValue)
        ensures
            r == self@.checksum,
    {
        self.checksum
    }

    /// Byte offset of the range within the image.
    pub fn offset(&self) -> (r: u64)
        ensures
            r == self@.offset,
    {
        self.offset
    }

    /// Byte length of the range.
    pub fn length(&self) -> (r: u64)
        ensures
            r == self@.length,
    {
        self.length
    }
}

/// A validated block map: which regions of an image carry meaningful data,
/// each tagged with a content checksum.  Immutable once built.
#[derive(Clone, Debug)]
pub struct Bmap {
    image_size: u64,
    block_size: u64,
    blocks: u64,
    mapped_blocks: u64,
    checksum_type: HashType,
    blockmap: Vec<BlockRange>,
}

impl View for Bmap {
    type V = BmapModel;

    closed spec fn view(&self) -> BmapModel {
        BmapModel {
            image_size: self.image_size,
            block_size: self.block_size,
            blocks: self.blocks,
            mapped_blocks: self.mapped_blocks,
            checksum_type: self.checksum_type,
            ranges: self.blockmap@.map_values(|r: BlockRange| r@),
        }
    }
}

impl Bmap {
    /// The invariant the copy engine relies on: ranges ascending and
    /// non-overlapping, none extending past the image.
    pub open spec fn wf(&self) -> bool {
        &&& ranges_ordered(self@.ranges)
        &&& ranges_within(self@.ranges, self@.image_size)
    }

    /// A fresh builder with no field set and no range.
    pub fn builder() -> (r: BmapBuilder)
        ensures
            r@ == (BuilderModel {
                image_size: None,
                block_size: None,
                blocks: None,
                mapped_blocks: None,
                checksum_type: None,
                ranges: Seq::<RangeModel>::empty(),
            }),
    {
        BmapBuilder::default()
    }

    /// Builds a map from a block-map document.  The result is exactly what
    /// [`crate::xml::spec_parse`] assigns to the document bytes: on success
    /// a map carrying the decoded fields and ranges, satisfying the
    /// invariant the copy engine relies on; otherwise the first error in the
    /// parser's fixed precedence, of the class the spec names.
    pub fn from_xml(xml: &str) -> (r: Result<Bmap, crate::xml::XmlError>)
        ensures
            r matches Ok(b) ==> b.wf() && (crate::xml::spec_parse(
                vstd::string::StringSliceAdditionalSpecFns::spec_bytes(xml),
            ) matches Ok(m) && crate::xml::parsed_matches(b@, m)),
            r matches Err(e) ==> (crate::xml::spec_parse(
                vstd::string::StringSliceAdditionalSpecFns::spec_bytes(xml),
            ) matches Err(c) && c == crate::xml::xml_err_kind(e)),
    {
        crate::xml::from_xml(xml)
    }

    /// Image size in bytes.
    pub fn image_size(&self) -> (r: u64)
        ensures
            r == self@.image_size,
    {
        self.image_size
    }

    /// Block size in bytes.
    pub fn block_size(&self) -> (r: u64)
        ensures
            r == self@.block_size,
    {
        self.block_size
    }

    /// Number of blocks in the image.
    pub fn blocks(&self) -> (r: u64)
        ensures
            r == self@.blocks,
    {
        self.blocks
    }

    /// Number of mapped blocks in the image.
    pub fn mapped_blocks(&self) -> (r: u64)
        ensures
            r == self@.mapped_blocks,
    {
        self.mapped_blocks
    }

    /// Checksum algorithm used by the map.
    pub fn checksum_type(&self) -> (r: HashType)
        ensures
            r == self@.checksum_type,
    {
        self.checksum_type
    }

    /// The ordered block map.
    pub fn block_map(&self) -> (r: &Vec<BlockRange>)
        ensures
            r@.len() == self@.ranges.len(),
            forall|i: int| 0 <= i < r@.len() ==> r@[i]@ == self@.ranges[i],
    {
        &self.blockmap
    }

    /// Total mapped size in bytes: an upper-bound estimate for progress
    /// reporting, not necessarily the exact sum of range lengths, since the
    /// final range may be clamped.
    pub fn total_mapped_size(&self) -> (r: u64)
        requires
            self@.block_size * self@.mapped_blocks <= u64::MAX,
        ensures
            r == self@.block_size * self@.mapped_blocks,
    {
        self.block_size * self.mapped_blocks
    }

    /// Runtime check of [`Bmap::wf`], for callers that assembled a map from
    /// untrusted parts and need the engine's precondition established.
    pub fn is_well_formed(&self) -> (r: bool)
        ensures
            r == self.wf(),
    {
        let n = self.blockmap.len();
        let mut i: usize = 0;
        while i < n
            invariant
                0 <= i <= n,
                n == self@.ranges.len(),
                forall|j: int|
                    0 <= j < i ==> self@.ranges[j].offset + self@.ranges[j].length
                        <= self@.image_size,
                forall|j: int|
                    0 <= j && j + 1 < n && j + 1 <= i ==> self@.ranges[j].offset
                        + self@.ranges[j].length <= self@.ranges[j + 1].offset,
            decreases n - i,
        {
            let r = &self.blockmap[i];
            assert(r@ == self@.ranges[i as int]);
            if r.offset > self.image_size || self.image_size - r.offset < r.length {
                return false;
            }
            if i + 1 < n {
                let next = &self.blockmap[i + 1];
                assert(next@ == self@.ranges[i + 1]);
                if next.offset < r.offset || next.offset - r.offset < r.length {
                    return false;
                }
            }
            i += 1;
        }
        true
    }
}

/// Error of [`BmapBuilder::build`]: a required scalar field was missing.
#[derive(Clone, Copy, Debug, PartialEq, Eq, Structural)]
pub enum BmapBuilderError {
    MissingImageSize,
    MissingBlockSize,
    MissingBlocks,
    MissingMappedBlocks,
    MissingChecksumType,
    /// Declared for completeness: a map with an empty range list (a
    /// legitimately all-zero image) is accepted, so building never raises
    /// this.
    NoBlockRanges,
}

impl BmapBuilderError {
    /// A short description of the error.
    pub fn message(&self) -> (r: &'static str)
        ensures
            r@.len() > 0,
    {
        let r = match self {
            BmapBuilderError::MissingImageSize => "Image size missing",
            BmapBuilderError::MissingBlockSize => "Block size missing",
            BmapBuilderError::MissingBlocks => "Blocks missing",
            BmapBuilderError::MissingMappedBlocks => "Mapped blocks missing",
            BmapBuilderError::MissingChecksumType => "Checksum type missing",
            BmapBuilderError::NoBlockRanges => "No block ranges",
        };
        proof {
            reveal_strlit("Image size missing");
            reveal_strlit("Block size missing");
            reveal_strlit("Blocks missing");
            reveal_strlit("Mapped blocks missing");
            reveal_strlit("Checksum type missing");
            reveal_strlit("No block ranges");
        }
        r
    }
}

/// The first missing-field error of a builder, checked in a fixed order:
/// image size, block size, block count, mapped block count, checksum
/// algorithm; success exactly when all five are set.
pub open spec fn spec_build(m: BuilderModel) -> Result<BmapModel, BmapBuilderError> {
    if m.image_size is None {
        Err(BmapBuilderError::MissingImageSize)
    } else if m.block_size is None {
        Err(BmapBuilderError::MissingBlockSize)
    } else if m.blocks is None {
        Err(BmapBuilderError::MissingBlocks)
    } else if m.mapped_blocks is None {
        Err(BmapBuilderError::MissingMappedBlocks)
    } else if m.checksum_type is None {
        Err(BmapBuilderError::MissingChecksumType)
    } else {
        Ok(
            BmapModel {
                image_size: m.image_size.unwrap(),
                block_size: m.block_size.unwrap(),
                blocks: m.blocks.unwrap(),
                mapped_blocks: m.mapped_blocks.unwrap(),
                checksum_type: m.checksum_type.unwrap(),
                ranges: m.ranges,
            },
        )
    }
}

/// Mutable accumulator for one parse: optional scalar fields and a growing
/// range list, consumed once by [`BmapBuilder::build`].
#[derive(Clone, Debug)]
pub struct BmapBuilder {
    image_size: Option<u64>,
    block_size: Option<u64>,
    blocks: Option<u64>,
    mapped_blocks: Option<u64>,
    checksum_type: Option<HashType>,
    blockmap: Vec<BlockRange>,
}

impl View for BmapBuilder {
    type V = BuilderModel;

    closed spec fn view(&self) -> BuilderModel {
        BuilderModel {
            image_size: self.image_size,
            block_size: self.block_size,
            blocks: self.blocks,
            mapped_blocks: self.mapped_blocks,
            checksum_type: self.checksum_type,
            ranges: self.blockmap@.map_values(|r: BlockRange| r@),
        }
    }
}

impl Default for BmapBuilder {
    /// A builder with no field set and no range.
    fn default() -> (r: BmapBuilder)
        ensures
            r@ == (BuilderModel {
                image_size: None,
                block_size: None,
                blocks: None,
                mapped_blocks: None,
                checksum_type: None,
                ranges: Seq::<RangeModel>::empty(),
            }),
    {
        let r = BmapBuilder {
            image_size: None,
            block_size: None,
            blocks: None,
            mapped_blocks: None,
            checksum_type: None,
            blockmap: Vec::new(),
        };
        proof {
            assert(r@.ranges =~= Seq::<RangeModel>::empty());
        }
        r
    }
}

impl BmapBuilder {
    /// Sets the image size in bytes.
    pub fn image_size(&mut self, size: u64)
        ensures
            final(self)@ == (BuilderModel { image_size: Some(size), ..old(self)@ }),
    {
        self.image_size = Some(size);
    }

    /// Sets the block size in bytes.
    pub fn block_size(&mut self, block_size: u64)
        ensures
            final(self)@ == (BuilderModel { block_size: Some(block_size), ..old(self)@ }),
    {
        self.block_size = Some(block_size);
    }

    /// Sets the number of blocks in the image.
    pub fn blocks(&mut self, blocks: u64)
        ensures
            final(self)@ == (BuilderModel { blocks: Some(blocks), ..old(self)@ }),
    {
        self.blocks = Some(blocks);
    }

    /// Sets the number of mapped blocks in the image.
    pub fn mapped_blocks(&mut self, blocks: u64)
        ensures
            final(self)@ == (BuilderModel { mapped_blocks: Some(blocks), ..old(self)@ }),
    {
        self.mapped_blocks = Some(blocks);
    }

    /// Sets the checksum algorithm.
    pub fn checksum_type(&mut self, checksum_type: HashType)
        ensures
            final(self)@ == (BuilderModel { checksum_type: Some(checksum_type), ..old(self)@ }),
    {
        self.checksum_type = Some(checksum_type);
    }

    /// Appends the range covering blocks `start` through `end` inclusive,
    /// converting block indices to a byte offset and length and clamping the
    /// length so the range never extends past the image size (the final block
    /// may be partial).
    ///
    /// Block size and image size must already be set, the indices must be
    /// ordered and small enough for the byte arithmetic to fit, and the new
    /// range must start no earlier than the previous range ended.
    pub fn add_block_range(&mut self, start: u64, end: u64, checksum: HashValue)
        requires
            old(self)@.block_size is Some,
            old(self)@.image_size is Some,
            start <= end,
            end - start + 1 <= u64::MAX,
            start * old(self)@.block_size.unwrap() <= u64::MAX,
            (end - start + 1) * old(self)@.block_size.unwrap() <= u64::MAX,
            start * old(self)@.block_size.unwrap() <= old(self)@.image_size.unwrap(),
            old(self)@.ranges.len() > 0 ==> old(self)@.ranges.last().offset + old(
                self,
            )@.ranges.last().length <= start * old(self)@.block_size.unwrap(),
        ensures
            final(self)@ == (BuilderModel {
                ranges: old(self)@.ranges.push(
                    RangeModel {
                        offset: (start * old(self)@.block_size.unwrap()) as u64,
                        length: vstd::math::min(
                            old(self)@.image_size.unwrap() - start * old(self)@.block_size.unwrap(),
                            (end - start + 1) * old(self)@.block_size.unwrap(),
                        ) as u64,
                        checksum,
                    },
                ),
                ..old(self)@
            }),
    {
        let bs = self.block_size.unwrap();
        let total = self.image_size.unwrap();
        let offset = start * bs;
        let nominal = (end - start + 1) * bs;
        let length = if total - offset < nominal {
            total - offset
        } else {
            nominal
        };
        self.add_byte_range(offset, length, checksum)
    }

    /// Appends the range `[offset, offset + length)` directly.  The range
    /// must lie within the already-set image size and start no earlier than
    /// the previous range ended: ranges are supplied in ascending,
    /// non-overlapping order.
    pub fn add_byte_range(&mut self, offset: u64, length: u64, checksum: HashValue)
        requires
            old(self)@.image_size is Some,
            offset + length <= old(self)@.image_size.unwrap(),
            old(self)@.ranges.len() > 0 ==> old(self)@.ranges.last().offset + old(
                self,
            )@.ranges.last().length <= offset,
        ensures
            final(self)@ == (BuilderModel {
                ranges: old(self)@.ranges.push(RangeModel { offset, length, checksum }),
                ..old(self)@
            }),
    {
        let range = BlockRange { offset, length, checksum };
        self.blockmap.push(range);
        proof {
            assert(self@.ranges =~= old(self)@.ranges.push(
                RangeModel { offset, length, checksum },
            ));
        }
    }

    /// Consumes the builder; returns the immutable map when every required
    /// scalar is set, else the first missing-field error in the fixed order
    /// image size, block size, block count, mapped block count, checksum
    /// algorithm.
    pub fn build(self) -> (r: Result<Bmap, BmapBuilderError>)
        ensures
            match r {
                Ok(b) => spec_build(self@) == Ok::<BmapModel, BmapBuilderError>(b@),
                Err(e) => spec_build(self@) == Err::<BmapModel, BmapBuilderError>(e),
            },
    {
        let image_size = match self.image_size {
            Some(v) => v,
            None => {
                return Err(BmapBuilderError::MissingImageSize);
            },
        };
        let block_size = match self.block_size {
            Some(v) => v,
            None => {
                return Err(BmapBuilderError::MissingBlockSize);
            },
        };
        let blocks = match self.blocks {
            Some(v) => v,
            None => {
                return Err(BmapBuilderError::MissingBlocks);
            },
        };
        let mapped_blocks = match self.mapped_blocks {
            Some(v) => v,
            None => {
                return Err(BmapBuilderError::MissingMappedBlocks);
            },
        };
        let checksum_type = match self.checksum_type {
            Some(v) => v,
            None => {
                return Err(BmapBuilderError::MissingChecksumType);
            },
        };
        let blockmap = self.blockmap;
        Ok(
            Bmap {
                image_size,
                block_size,
                blocks,
                mapped_blocks,
                checksum_type,
                blockmap,
            },
        )
    }
}

} // verus!
