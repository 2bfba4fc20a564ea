//! Block-map driven image copying.
//!
//! A block map describes which fixed-size regions of a disk image carry
//! meaningful data, each region tagged with a content checksum.  This crate
//! models such maps, parses their wire format, and copies mapped regions from
//! a byte source to a byte sink while verifying every checksum.

use vstd::prelude::*;

mod bmap;
mod discarder;
mod xml;
mod hashes;
mod helpers;
mod mem;
mod stepper;

pub use crate::bmap::BlockRange;
pub use crate::bmap::Bmap;
pub use crate::bmap::BmapBuilder;
pub use crate::bmap::BmapBuilderError;
pub use crate::bmap::BmapModel;
pub use crate::bmap::BuilderModel;
pub use crate::bmap::RangeModel;
pub use crate::discarder::Discarder;
pub use crate::xml::ParsedModel;
pub use crate::xml::ParsedRange;
pub use crate::xml::XmlError;
pub use crate::xml::XmlErrorKind;
pub use crate::xml::parsed_matches;
pub use crate::xml::spec_parse;
pub use crate::xml::xml_err_kind;
pub use crate::xml::hexdigit_to_u8;
pub use crate::xml::str_to_digest;
pub use crate::hashes::HashType;
pub use crate::helpers::append;
pub use crate::helpers::extension_split;
pub use crate::helpers::is_extension_dot;
pub use crate::hashes::HashValue;
pub use crate::hashes::Sha256Hasher;
pub use crate::hashes::hasher_input;
pub use crate::hashes::sha256_of;
pub use crate::mem::MemSink;
pub use crate::stepper::CopyAction;
pub use crate::stepper::CopyEngine;
pub use crate::stepper::CopyEvent;
pub use crate::stepper::copy_stepwise;
pub use crate::mem::MemSource;

verus! {

/// Error taxonomy of a copy operation.
#[derive(Clone, Copy, Debug, PartialEq, Eq, Structural)]
pub enum CopyError {
    /// The source failed to deliver bytes.
    ReadError,
    /// The sink failed to accept bytes.
    WriteError,
    /// A mapped range's bytes did not hash to its declared digest.
    ChecksumError,
    /// The source ended before a mapped range was fully delivered.
    UnexpectedEof,
}

/// Failure of a single read, write, seek or flush on a source or sink.
#[derive(Clone, Copy, Debug, PartialEq, Eq, Structural)]
pub enum IoError {
    /// The underlying resource failed.
    Failed,
    /// The resource ended before the operation could complete.
    UnexpectedEof,
}

/// The destination bytes after writing `data` at `pos`: bytes outside
/// `[pos, pos + data.len())` are untouched.
pub open spec fn splice(dst: Seq<u8>, pos: int, data: Seq<u8>) -> Seq<u8> {
    dst.subrange(0, pos) + data + dst.subrange(pos + data.len(), dst.len() as int)
}

/// Whether absolute offset `i` falls inside range `r`.
pub open spec fn covers(r: RangeModel, i: int) -> bool {
    r.offset <= i < r.offset + r.length
}

/// Whether absolute offset `i` falls inside one of the ranges.
pub open spec fn offset_mapped(ranges: Seq<RangeModel>, i: int) -> bool {
    exists|k: int| 0 <= k < ranges.len() && covers(#[trigger] ranges[k], i)
}

/// Whether range `r` lies entirely within a source of `len` bytes.
pub open spec fn range_in_stream(len: int, r: RangeModel) -> bool {
    r.offset + r.length <= len
}

/// The bytes of range `r` within source content `src`.
pub open spec fn range_bytes(src: Seq<u8>, r: RangeModel) -> Seq<u8> {
    src.subrange(r.offset as int, r.offset + r.length)
}

/// Range `r` lies within the source and its bytes hash to its declared
/// digest.
pub open spec fn range_matches(src: Seq<u8>, r: RangeModel) -> bool {
    &&& range_in_stream(src.len() as int, r)
    &&& crate::hashes::sha256_of(range_bytes(src, r)) == r.checksum.spec_bytes()
}

/// The outcome of walking the ranges over source content `src`, each range
/// verified in order: the first range that the source cannot fully supply
/// ends the walk with an end-of-stream error, the first digest mismatch with
/// a checksum error.
pub open spec fn spec_copy_result(src: Seq<u8>, ranges: Seq<RangeModel>) -> Result<
    (),
    CopyError,
>
    decreases ranges.len(),
{
    if ranges.len() == 0 {
        Ok(())
    } else if !range_in_stream(src.len() as int, ranges[0]) {
        Err(CopyError::UnexpectedEof)
    } else if crate::hashes::sha256_of(range_bytes(src, ranges[0])) != ranges[0].checksum.spec_bytes() {
        Err(CopyError::ChecksumError)
    } else {
        spec_copy_result(src, ranges.drop_first())
    }
}

/// Walking the whole list is walking the remainder, once the first `k`
/// ranges are known to match.
pub(crate) proof fn lemma_copy_result_skip(src: Seq<u8>, ranges: Seq<RangeModel>, k: int)
    requires
        0 <= k <= ranges.len(),
        forall|j: int| 0 <= j < k ==> range_matches(src, #[trigger] ranges[j]),
    ensures
        spec_copy_result(src, ranges) == spec_copy_result(src, ranges.skip(k)),
    decreases k,
{
    if k > 0 {
        assert(range_matches(src, ranges[0]));
        lemma_copy_result_skip(src, ranges.drop_first(), k - 1);
        assert(ranges.drop_first().skip(k - 1) =~= ranges.skip(k));
        assert(forall|j: int|
            0 <= j < k - 1 ==> #[trigger] ranges.drop_first()[j] == ranges[j + 1]);
    } else {
        assert(ranges.skip(0) =~= ranges);
    }
}

/// Extending the processed prefix by one range extends the mapped region by
/// exactly that range.
pub(crate) proof fn lemma_mapped_take_succ(ranges: Seq<RangeModel>, k: int, i: int)
    requires
        0 <= k < ranges.len(),
    ensures
        offset_mapped(ranges.take(k + 1), i) <==> offset_mapped(ranges.take(k), i) || covers(
            ranges[k],
            i,
        ),
{
    let pre = ranges.take(k);
    let ext = ranges.take(k + 1);
    assert(forall|j: int| 0 <= j < k + 1 ==> #[trigger] ext[j] == ranges[j]);
    assert(forall|j: int| 0 <= j < k ==> #[trigger] pre[j] == ranges[j]);
    if offset_mapped(ext, i) {
        let j = choose|j: int| 0 <= j < ext.len() && covers(#[trigger] ext[j], i);
        if j < k {
            assert(covers(pre[j], i));
        } else {
            assert(covers(ranges[k], i));
        }
    }
    if offset_mapped(pre, i) {
        let j = choose|j: int| 0 <= j < pre.len() && covers(#[trigger] pre[j], i);
        assert(covers(ext[j], i));
    }
    if covers(ranges[k], i) {
        assert(covers(ext[k], i));
    }
}

/// Writing `a` at `p` and then `b` right after it is one write of `a + b`.
proof fn lemma_splice_append(dst: Seq<u8>, p: int, a: Seq<u8>, b: Seq<u8>)
    requires
        0 <= p,
        p + a.len() + b.len() <= dst.len(),
    ensures
        splice(splice(dst, p, a), p + a.len(), b) == splice(dst, p, a + b),
{
    let s2 = splice(splice(dst, p, a), p + a.len(), b);
    let s3 = splice(dst, p, a + b);
    assert forall|i: int| 0 <= i < dst.len() implies s2[i] == s3[i] by {
        if i < p {
        } else if i < p + a.len() {
        } else if i < p + a.len() + b.len() {
        } else {
        }
    }
    assert(s2 =~= s3);
}

/// A positioned stream of bytes, the model shared by sources and sinks.
///
/// `bytes` is the whole underlying content (for a source, everything it can
/// ever deliver; for a sink, the current destination contents), `position`
/// the cursor within it.  A `reliable` stream is one whose operations are
/// promised to succeed deterministically; resources backed by fallible I/O
/// are not reliable, and every contract below still pins what holds of their
/// results whenever they do succeed.
pub trait ByteStream {
    /// The underlying byte content.
    spec fn bytes(&self) -> Seq<u8>;

    /// The current cursor, counted from the start of `bytes`.
    spec fn position(&self) -> int;

    /// Whether operations on this stream are promised to succeed.
    spec fn reliable(&self) -> bool;

    /// Internal well-formedness.
    spec fn inv(&self) -> bool;

    /// The cursor never lies outside the content.
    proof fn inv_facts(&self)
        requires
            self.inv(),
        ensures
            0 <= self.position() <= self.bytes().len(),
    ;
}

/// Capability to advance the current position forward; backward movement is
/// not supported.  This, not full random access, is what the copy engine
/// depends on: one side of a transfer may only be sequentially readable.
pub trait SeekForward: ByteStream {
    /// Advances the position by exactly `offset` bytes, without changing the
    /// underlying content.
    fn seek_forward(&mut self, offset: u64) -> (r: Result<(), IoError>)
        requires
            old(self).inv(),
        ensures
            final(self).inv(),
            final(self).bytes() == old(self).bytes(),
            final(self).reliable() == old(self).reliable(),
            final(self).position() >= old(self).position(),
            r is Ok ==> final(self).position() == old(self).position() + offset
                && final(self).position() <= final(self).bytes().len(),
            r == Err::<(), IoError>(IoError::UnexpectedEof) ==> old(self).position() + offset > old(
                self,
            ).bytes().len(),
            old(self).reliable() ==> (r is Ok <==> old(self).position() + offset <= old(
                self,
            ).bytes().len()),
            old(self).reliable() && r is Err ==> r == Err::<(), IoError>(IoError::UnexpectedEof),
    ;
}

/// A source of sequential reads.
pub trait ByteSource: ByteStream {
    /// Reads up to `max` bytes into the front of `buf`; `Ok(0)` means the
    /// source has ended.  A reliable source delivers exactly
    /// `min(max, remaining)` bytes.
    fn read(&mut self, buf: &mut Vec<u8>, max: usize) -> (r: Result<usize, IoError>)
        requires
            old(self).inv(),
            max <= old(buf).len(),
        ensures
            final(self).inv(),
            final(self).bytes() == old(self).bytes(),
            final(self).reliable() == old(self).reliable(),
            final(buf).len() == old(buf).len(),
            match r {
                Ok(n) => {
                    &&& n <= max
                    &&& final(self).position() == old(self).position() + n
                    &&& final(self).position() <= final(self).bytes().len()
                    &&& final(buf)@.subrange(0, n as int) == old(self).bytes().subrange(
                        old(self).position(),
                        old(self).position() + n,
                    )
                    &&& n == 0 && max > 0 ==> old(self).position() >= old(self).bytes().len()
                    &&& old(self).reliable() ==> n == vstd::math::min(
                        max as int,
                        old(self).bytes().len() - old(self).position(),
                    )
                },
                Err(e) => {
                    &&& e == IoError::Failed
                    &&& final(self).position() == old(self).position()
                    &&& !old(self).reliable()
                },
            },
    ;
}

/// A sink of sequential writes.
pub trait ByteSink: ByteStream {
    /// Writes all of `data` at the current position, overwriting that part of
    /// the destination and leaving every other byte as it was.  Succeeds only
    /// when the write fits inside the destination; a reliable sink succeeds
    /// exactly then.
    fn write_all(&mut self, data: &[u8]) -> (r: Result<(), IoError>)
        requires
            old(self).inv(),
        ensures
            final(self).inv(),
            final(self).reliable() == old(self).reliable(),
            final(self).bytes().len() == old(self).bytes().len(),
            match r {
                Ok(()) => {
                    &&& old(self).position() + data@.len() <= old(self).bytes().len()
                    &&& final(self).position() == old(self).position() + data@.len()
                    &&& final(self).bytes() == splice(
                        old(self).bytes(),
                        old(self).position(),
                        data@,
                    )
                },
                Err(e) => e == IoError::Failed,
            },
            old(self).reliable() ==> (r is Ok <==> old(self).position() + data@.len() <= old(
                self,
            ).bytes().len()),
    ;

    /// Drains pending writes; the modelled content and position do not move.
    fn flush(&mut self) -> (r: Result<(), IoError>)
        requires
            old(self).inv(),
        ensures
            final(self).inv(),
            final(self).bytes() == old(self).bytes(),
            final(self).position() == old(self).position(),
            final(self).reliable() == old(self).reliable(),
            r is Err ==> r == Err::<(), IoError>(IoError::Failed) && !old(self).reliable(),
    ;
}

/// Size of the fixed intermediate buffer of the copy engine.
pub const COPY_BUF_LEN: usize = 8 * 1024 * 1024;

/// Copies every mapped range of `map` from `input` to `output`, skipping
/// unmapped gaps on both sides by forward seeks so absolute offsets stay
/// synchronized, and verifying each range's digest as it is streamed.
///
/// The caller pre-sizes the destination to the map's image size; bytes
/// outside mapped ranges are left exactly as they were.  A digest mismatch
/// aborts the whole copy with a checksum error; a source that ends early
/// aborts it with an end-of-stream error; there is no partial-success state,
/// and a caller must discard a partially written destination.
#[verifier::rlimit(60)]
pub fn copy<I, O>(input: &mut I, output: &mut O, map: &Bmap) -> (r: Result<(), CopyError>) where
    I: ByteSource + SeekForward,
    O: ByteSink + SeekForward,

    requires
        old(input).inv(),
        old(output).inv(),
        old(input).position() == 0,
        old(output).position() == 0,
        map.wf(),
        old(output).bytes().len() >= map@.image_size,
    ensures
        final(input).inv(),
        final(output).inv(),
        final(input).bytes() == old(input).bytes(),
        final(input).reliable() == old(input).reliable(),
        final(output).reliable() == old(output).reliable(),
        final(output).bytes().len() == old(output).bytes().len(),
        r is Ok ==> forall|k: int|
            0 <= k < map@.ranges.len() ==> range_matches(old(input).bytes(), #[trigger] map@.ranges[k]),
        r is Ok ==> forall|i: int|
            0 <= i < final(output).bytes().len() ==> final(output).bytes()[i] == (if offset_mapped(
                map@.ranges,
                i,
            ) {
                old(input).bytes()[i]
            } else {
                old(output).bytes()[i]
            }),
        r == Err::<(), CopyError>(CopyError::ChecksumError) ==> exists|k: int|
            0 <= k < map@.ranges.len() && range_in_stream(
                old(input).bytes().len() as int,
                #[trigger] map@.ranges[k],
            ) && crate::hashes::sha256_of(range_bytes(old(input).bytes(), map@.ranges[k]))
                != map@.ranges[k].checksum.spec_bytes(),
        r == Err::<(), CopyError>(CopyError::UnexpectedEof) ==> exists|k: int|
            0 <= k < map@.ranges.len() && !range_in_stream(
                old(input).bytes().len() as int,
                #[trigger] map@.ranges[k],
            ),
        old(input).reliable() && old(output).reliable() ==> r == spec_copy_result(
            old(input).bytes(),
            map@.ranges,
        ),
{
    let ghost src = old(input).bytes();
    let ghost dst0 = old(output).bytes();
    let ghost rs = map@.ranges;

    let mut hasher = match map.checksum_type() {
        HashType::Sha256 => Sha256Hasher::new(),
    };
    let mut v: Vec<u8> = vec![0u8; COPY_BUF_LEN];
    let mut position: u64 = 0;
    let ranges = map.block_map();
    let n = ranges.len();
    let mut k: usize = 0;
    while k < n
        invariant
            src == old(input).bytes(),
            dst0 == old(output).bytes(),
            input.inv(),
            output.inv(),
            input.bytes() == src,
            input.reliable() == old(input).reliable(),
            output.reliable() == old(output).reliable(),
            output.bytes().len() == dst0.len(),
            v@.len() == COPY_BUF_LEN,
            n == rs.len(),
            rs == map@.ranges,
            map.wf(),
            dst0.len() >= map@.image_size,
            ranges@.len() == n,
            forall|j: int| 0 <= j < n ==> ranges@[j]@ == rs[j],
            0 <= k <= n,
            k == 0 ==> position == 0,
            k > 0 ==> position == rs[k - 1].offset + rs[k - 1].length,
            input.position() == position,
            output.position() == position,
            forall|j: int| 0 <= j < k ==> range_matches(src, #[trigger] rs[j]),
            forall|i: int|
                0 <= i < dst0.len() ==> output.bytes()[i] == (if offset_mapped(
                    rs.take(k as int),
                    i,
                ) {
                    src[i]
                } else {
                    dst0[i]
                }),
            hasher_input(hasher) == Seq::<u8>::empty(),
        decreases n - k,
    {
        let range = &ranges[k];
        let offset = range.offset();
        let length = range.length();
        proof {
            assert(ranges@[k as int]@ == rs[k as int]);
            assert(rs[k as int].offset + rs[k as int].length <= map@.image_size);  // ranges_within
            if k > 0 {
                assert(rs[k as int - 1].offset + rs[k as int - 1].length <= rs[k as int].offset);  // ranges_ordered
            }
        }
        let forward = offset - position;
        match input.seek_forward(forward) {
            Ok(()) => {},
            Err(IoError::UnexpectedEof) => {
                proof {
                    assert(!range_in_stream(src.len() as int, rs[k as int]));
                    if old(input).reliable() && old(output).reliable() {
                        lemma_copy_result_skip(src, rs, k as int);
                        assert(rs.skip(k as int)[0] == rs[k as int]);
                    }
                }
                return Err(CopyError::UnexpectedEof);
            },
            Err(IoError::Failed) => {
                return Err(CopyError::ReadError);
            },
        }
        match output.seek_forward(forward) {
            Ok(()) => {},
            Err(_) => {
                return Err(CopyError::WriteError);
            },
        }
        position = offset;
        let mut left: u64 = length;
        while left > 0
            invariant
                src == old(input).bytes(),
                dst0 == old(output).bytes(),
                input.inv(),
                output.inv(),
                input.bytes() == src,
                input.reliable() == old(input).reliable(),
                output.reliable() == old(output).reliable(),
                output.bytes().len() == dst0.len(),
                v@.len() == COPY_BUF_LEN,
                n == rs.len(),
                rs == map@.ranges,
                map.wf(),
                dst0.len() >= map@.image_size,
                0 <= k < n,
                rs[k as int].offset == offset,
                rs[k as int].length == length,
                left <= length,
                input.position() == offset + (length - left),
                output.position() == offset + (length - left),
                input.position() <= src.len(),
                hasher_input(hasher) == src.subrange(offset as int, offset + (length - left)),
                forall|j: int| 0 <= j < k ==> range_matches(src, #[trigger] rs[j]),
                forall|i: int|
                    0 <= i < dst0.len() ==> output.bytes()[i] == (if offset_mapped(
                        rs.take(k as int),
                        i,
                    ) || (offset <= i < offset + (length - left)) {
                        src[i]
                    } else {
                        dst0[i]
                    }),
            decreases left,
        {
            let toread: usize = if left < COPY_BUF_LEN as u64 {
                left as usize
            } else {
                COPY_BUF_LEN
            };
            match input.read(&mut v, toread) {
                Ok(nr) => {
                    if nr == 0 {
                        proof {
                            assert(offset + length > src.len());
                            assert(!range_in_stream(src.len() as int, rs[k as int]));
                            if old(input).reliable() && old(output).reliable() {
                                lemma_copy_result_skip(src, rs, k as int);
                                assert(rs.skip(k as int)[0] == rs[k as int]);
                            }
                        }
                        return Err(CopyError::UnexpectedEof);
                    }
                    let ghost done = length - left;
                    let chunk = vstd::slice::slice_subrange(v.as_slice(), 0, nr);
                    proof {
                        assert(chunk@ == src.subrange(
                            offset + done,
                            offset + done + nr,
                        ));
                    }
                    hasher.update(chunk);
                    proof {
                        assert(src.subrange(offset as int, offset + done) + src.subrange(
                            offset + done,
                            offset + done + nr,
                        ) =~= src.subrange(offset as int, offset + done + nr));
                    }
                    let ghost pre_sink = output.bytes();
                    match output.write_all(chunk) {
                        Ok(()) => {},
                        Err(_) => {
                            proof {
                                if old(output).reliable() {
                                    assert(offset + done + nr <= offset + length);
                                    assert(offset + length <= map@.image_size);  // ranges_within
                                    assert(false);
                                }
                            }
                            return Err(CopyError::WriteError);
                        },
                    }
                    proof {
                        assert(output.bytes() == splice(pre_sink, offset + done, chunk@));
                        assert forall|i: int| 0 <= i < dst0.len() implies output.bytes()[i] == (
                        if offset_mapped(rs.take(k as int), i) || (offset <= i < offset + done
                            + nr) {
                            src[i]
                        } else {
                            dst0[i]
                        }) by {
                            if offset + done <= i < offset + done + nr {
                                assert(output.bytes()[i] == chunk@[i - (offset + done)]);
                                assert(chunk@[i - (offset + done)] == src[i]);
                            } else {
                                assert(output.bytes()[i] == pre_sink[i]);
                            }
                        }
                    }
                    left = left - nr as u64;
                },
                Err(_) => {
                    return Err(CopyError::ReadError);
                },
            }
        }
        let digest = hasher.finalize_reset();
        let cs = range.checksum();
        proof {
            assert(hasher_input(hasher) == Seq::<u8>::empty());
            assert(digest@ == crate::hashes::sha256_of(range_bytes(src, rs[k as int])));
            assert(cs.spec_bytes() == rs[k as int].checksum.spec_bytes());
            assert(range_in_stream(src.len() as int, rs[k as int]));
        }
        if !crate::hashes::bytes_equal(digest.as_slice(), cs.as_slice()) {
            proof {
                if old(input).reliable() && old(output).reliable() {
                    lemma_copy_result_skip(src, rs, k as int);
                    assert(rs.skip(k as int)[0] == rs[k as int]);
                }
            }
            return Err(CopyError::ChecksumError);
        }
        proof {
            assert(range_matches(src, rs[k as int]));
            assert forall|i: int| 0 <= i < dst0.len() implies output.bytes()[i] == (if offset_mapped(
                rs.take(k as int + 1),
                i,
            ) {
                src[i]
            } else {
                dst0[i]
            }) by {
                lemma_mapped_take_succ(rs, k as int, i);
            }
        }
        position = offset + length;
        k = k + 1;
    }
    proof {
        assert(rs.take(n as int) =~= rs);
        if old(input).reliable() && old(output).reliable() {
            lemma_copy_result_skip(src, rs, n as int);
            assert(rs.skip(n as int) =~= Seq::<RangeModel>::empty());
        }
    }
    Ok(())
}

/// One step of a forward-only source access script: advance by this many
/// bytes, or read up to this many bytes.
#[derive(Clone, Copy, Debug)]
pub enum SourceOp {
    Seek(u64),
    Read(usize),
}

/// The bytes a forward-only script yields over a source with content
/// `bytes` and cursor `pos`: reads deliver whatever lies under the cursor,
/// and a seek that runs past the end fails the whole script.
pub open spec fn spec_script_output(bytes: Seq<u8>, pos: int, ops: Seq<SourceOp>) -> Option<
    Seq<u8>,
>
    decreases ops.len(),
{
    if ops.len() == 0 {
        Some(Seq::<u8>::empty())
    } else {
        match ops[0] {
            SourceOp::Seek(n) => if pos + n <= bytes.len() {
                spec_script_output(bytes, pos + n, ops.drop_first())
            } else {
                None
            },
            SourceOp::Read(m) => {
                let k = vstd::math::min(m as int, bytes.len() - pos);
                match spec_script_output(bytes, pos + k, ops.drop_first()) {
                    Some(t) => Some(bytes.subrange(pos, pos + k) + t),
                    None => None,
                }
            },
        }
    }
}

/// Appends `chunk` to `acc`.
fn append_bytes(acc: &mut Vec<u8>, chunk: &[u8])
    ensures
        final(acc)@ == old(acc)@ + chunk@,
{
    let mut i: usize = 0;
    while i < chunk.len()
        invariant
            0 <= i <= chunk@.len(),
            acc@ == old(acc)@ + chunk@.subrange(0, i as int),
        decreases chunk@.len() - i,
    {
        let b = chunk[i];
        acc.push(b);
        proof {
            assert(old(acc)@ + chunk@.subrange(0, i as int) + seq![chunk@[i as int]] =~= old(acc)@
                + chunk@.subrange(0, i + 1));
        }
        i += 1;
    }
    proof {
        assert(chunk@.subrange(0, chunk@.len() as int) =~= chunk@);
    }
}

/// Forward-seek equivalence: what a forward-only script of seeks and reads
/// yields over a reliable source is a function of the source's content and
/// starting cursor alone.  A sequential-only resource behind the discarding
/// adapter and a truly random-access resource with the same content
/// therefore produce identical byte results for any such script.
pub fn run_script<S>(src: &mut S, ops: &Vec<SourceOp>) -> (out: Option<Vec<u8>>) where
    S: ByteSource + SeekForward,

    requires
        old(src).inv(),
        old(src).reliable(),
    ensures
        final(src).inv(),
        final(src).bytes() == old(src).bytes(),
        final(src).reliable(),
        match out {
            Some(v) => spec_script_output(old(src).bytes(), old(src).position(), ops@) == Some(v@),
            None => spec_script_output(old(src).bytes(), old(src).position(), ops@) is None,
        },
{
    let ghost bytes = old(src).bytes();
    let ghost pos0 = old(src).position();
    let mut acc: Vec<u8> = Vec::new();
    proof {
        old(src).inv_facts();
        assert(ops@.skip(0) =~= ops@);
        let t0 = spec_script_output(bytes, pos0, ops@);
        if t0 is Some {
            assert(Seq::<u8>::empty() + t0.unwrap() =~= t0.unwrap());
        }
    }
    let n = ops.len();
    let mut i: usize = 0;
    while i < n
        invariant
            bytes == old(src).bytes(),
            pos0 == old(src).position(),
            src.inv(),
            src.bytes() == bytes,
            src.reliable(),
            n == ops@.len(),
            0 <= i <= n,
            src.position() <= bytes.len(),
            spec_script_output(bytes, pos0, ops@) == match spec_script_output(
                bytes,
                src.position(),
                ops@.skip(i as int),
            ) {
                Some(t) => Some(acc@ + t),
                None => None::<Seq<u8>>,
            },
        decreases n - i,
    {
        proof {
            assert(ops@.skip(i as int)[0] == ops@[i as int]);
            assert(ops@.skip(i as int).drop_first() =~= ops@.skip(i + 1));
        }
        match ops[i] {
            SourceOp::Seek(fwd) => {
                match src.seek_forward(fwd) {
                    Ok(()) => {},
                    Err(_) => {
                        return None;
                    },
                }
            },
            SourceOp::Read(m) => {
                let mut buf: Vec<u8> = vec![0u8; m];
                let ghost pre = src.position();
                match src.read(&mut buf, m) {
                    Ok(k) => {
                        let chunk = vstd::slice::slice_subrange(buf.as_slice(), 0, k);
                        let ghost acc_pre = acc@;
                        append_bytes(&mut acc, chunk);
                        proof {
                            let t2 = spec_script_output(bytes, src.position(), ops@.skip(i + 1));
                            if t2 is Some {
                                assert(acc_pre + (bytes.subrange(pre, pre + k) + t2.unwrap())
                                    =~= (acc_pre + bytes.subrange(pre, pre + k)) + t2.unwrap());
                            }
                        }
                    },
                    Err(_) => {
                        proof {
                            assert(false);
                        }
                        return None;
                    },
                }
            },
        }
        i += 1;
    }
    proof {
        assert(ops@.skip(n as int) =~= Seq::<SourceOp>::empty());
        assert(acc@ + Seq::<u8>::empty() =~= acc@);
    }
    Some(acc)
}

/// Streams the entire remaining source to the sink verbatim: no seeking, no
/// checksum verification, for callers that explicitly opt out of block-map
/// driven copying.
pub fn copy_nobmap<I, O>(input: &mut I, output: &mut O) -> (r: Result<(), CopyError>) where
    I: ByteSource,
    O: ByteSink,

    requires
        old(input).inv(),
        old(output).inv(),
    ensures
        final(input).inv(),
        final(output).inv(),
        final(input).bytes() == old(input).bytes(),
        final(input).reliable() == old(input).reliable(),
        final(output).reliable() == old(output).reliable(),
        final(output).bytes().len() == old(output).bytes().len(),
        r is Ok ==> final(input).position() == old(input).bytes().len() && final(
            output
        ).bytes() == splice(
            old(output).bytes(),
            old(output).position(),
            old(input).bytes().skip(old(input).position()),
        ) && final(output).position() == old(output).position() + (old(input).bytes().len() - old(
            input,
        ).position()),
        old(input).reliable() && old(output).reliable() && old(output).position() + (old(
            input,
        ).bytes().len() - old(input).position()) <= old(output).bytes().len() ==> r is Ok,
{
    let ghost src = old(input).bytes();
    let ghost dst0 = old(output).bytes();
    let ghost p_in = old(input).position();
    let ghost p_out = old(output).position();
    let mut v: Vec<u8> = vec![0u8; COPY_BUF_LEN];
    proof {
        old(input).inv_facts();
        old(output).inv_facts();
        assert(src.subrange(p_in, p_in) =~= Seq::<u8>::empty());
        assert(dst0.subrange(0, p_out) + Seq::<u8>::empty() + dst0.subrange(
            p_out,
            dst0.len() as int,
        ) =~= dst0);
    }
    loop
        invariant
            src == old(input).bytes(),
            dst0 == old(output).bytes(),
            p_in == old(input).position(),
            p_out == old(output).position(),
            input.inv(),
            output.inv(),
            input.bytes() == src,
            input.reliable() == old(input).reliable(),
            output.reliable() == old(output).reliable(),
            output.bytes().len() == dst0.len(),
            v@.len() == COPY_BUF_LEN,
            0 <= p_in <= input.position() <= src.len(),
            0 <= p_out,
            output.position() == p_out + (input.position() - p_in),
            output.position() <= dst0.len(),
            output.bytes() == splice(dst0, p_out, src.subrange(p_in, input.position())),
        ensures
            input.inv(),
            output.inv(),
            input.bytes() == src,
            input.reliable() == old(input).reliable(),
            output.reliable() == old(output).reliable(),
            output.bytes().len() == dst0.len(),
            input.position() == src.len(),
            output.position() == p_out + (src.len() - p_in),
            output.bytes() == splice(dst0, p_out, src.subrange(p_in, src.len() as int)),
        decreases src.len() - input.position(),
    {
        let ghost pos = input.position();
        match input.read(&mut v, COPY_BUF_LEN) {
            Ok(nr) => {
                if nr == 0 {
                    proof {
                        assert(input.position() == src.len());
                    }
                    break;
                }
                let chunk = vstd::slice::slice_subrange(v.as_slice(), 0, nr);
                let ghost pre_sink = output.bytes();
                match output.write_all(chunk) {
                    Ok(()) => {},
                    Err(_) => {
                        proof {
                            if old(output).reliable() && p_out + (src.len() - p_in) <= dst0.len() {
                                assert(false);
                            }
                        }
                        return Err(CopyError::WriteError);
                    },
                }
                proof {
                    assert(src.subrange(p_in, pos) + src.subrange(pos, pos + nr) =~= src.subrange(
                        p_in,
                        pos + nr,
                    ));
                    lemma_splice_append(
                        dst0,
                        p_out,
                        src.subrange(p_in, pos),
                        src.subrange(pos, pos + nr),
                    );
                }
            },
            Err(_) => {
                return Err(CopyError::ReadError);
            },
        }
    }
    proof {
        assert(src.skip(p_in) =~= src.subrange(p_in, src.len() as int));
    }
    Ok(())
}

} // verus!
