//! Cooperative copy engine: the same range-walk-and-verify algorithm as the
//! blocking engine, factored as a state machine whose every read, write,
//! seek and flush is a suspension point.
//!
//! The engine owns the walk state and the streaming hash; a driver performs
//! each returned [`CopyAction`] against the real source and sink — possibly
//! awaiting inside an external scheduler — and reports the outcome back as a
//! [`CopyEvent`].  The driver flushes the sink before the forward seeks of an
//! advance, because a buffering sink must drain pending writes before its
//! position is considered to have moved.

use vstd::prelude::*;

use crate::Bmap;
use crate::ByteSink;
use crate::ByteSource;
use crate::CopyError;
use crate::IoError;
use crate::SeekForward;
use crate::lemma_copy_result_skip;
use crate::lemma_mapped_take_succ;
use crate::offset_mapped;
use crate::range_bytes;
use crate::range_in_stream;
use crate::range_matches;
use crate::spec_copy_result;
use crate::splice;
use crate::COPY_BUF_LEN;
use crate::hashes::Sha256Hasher;
use crate::hashes::bytes_equal;
use crate::hashes::hasher_input;
use crate::hashes::sha256_of;
use crate::RangeModel;

verus! {

/// What the driver must do next.
#[derive(Debug)]
pub enum CopyAction {
    /// Flush the sink, then advance both source and sink forward by this
    /// many bytes.
    Advance(u64),
    /// Read up to this many bytes from the source.
    Read(usize),
    /// Write exactly these bytes to the sink.
    Write(Vec<u8>),
    /// The copy is complete or has failed; stop driving.
    Finished(Result<(), CopyError>),
}

/// What the driver reports back.
#[derive(Debug)]
pub enum CopyEvent {
    /// Nothing has been performed yet; ask for the first action.
    Started,
    /// The flush and both forward seeks completed.
    Advanced,
    /// The read delivered these bytes; empty means the source has ended.
    Data(Vec<u8>),
    /// The write completed.
    Written,
    /// A source read or seek failed.
    SourceFailed,
    /// A sink write, seek or flush failed.
    SinkFailed,
    /// The source ended during a discarding forward seek.
    SourceEnded,
}

enum Phase {
    Starting,
    Seeking,
    Streaming,
    Writing,
    Finished,
}

/// The cooperative copy engine for one map.
pub struct CopyEngine<'a> {
    map: &'a Bmap,
    k: usize,
    left: u64,
    position: u64,
    hasher: Sha256Hasher,
    phase: Phase,
    delivered: Ghost<Seq<Seq<u8>>>,
}

impl<'a> CopyEngine<'a> {
    /// The ranges being walked.
    pub closed spec fn ranges(&self) -> Seq<RangeModel> {
        self.map@.ranges
    }

    /// Index of the range currently being walked.
    pub closed spec fn range_index(&self) -> int {
        self.k as int
    }

    /// Bytes still to stream in the current range.
    pub closed spec fn remaining(&self) -> int {
        self.left as int
    }

    /// Bytes received so far for the current range, in order; exactly what
    /// has been fed to the streaming hash.
    pub closed spec fn fed(&self) -> Seq<u8> {
        hasher_input(self.hasher)
    }

    /// The bytes delivered for each completed range, in range order.
    pub closed spec fn delivered(&self) -> Seq<Seq<u8>> {
        self.delivered@
    }

    /// The absolute offset the walk has reached: every byte before it on the
    /// current range's side has been consumed and hashed.
    pub closed spec fn cursor(&self) -> int {
        self.position as int
    }

    /// Whether the engine has emitted its final action.
    pub closed spec fn is_finished(&self) -> bool {
        self.phase is Finished
    }

    /// Whether the engine waits for [`CopyEvent::Started`].
    pub closed spec fn at_start(&self) -> bool {
        self.phase is Starting
    }

    /// Whether the engine waits for [`CopyEvent::Advanced`].
    pub closed spec fn expecting_advance(&self) -> bool {
        self.phase is Seeking
    }

    /// Whether the engine waits for [`CopyEvent::Data`].
    pub closed spec fn expecting_data(&self) -> bool {
        self.phase is Streaming
    }

    /// Whether the engine waits for [`CopyEvent::Written`].
    pub closed spec fn expecting_write_ack(&self) -> bool {
        self.phase is Writing
    }

    /// Every range was fully delivered and its bytes hashed to its declared
    /// digest.
    pub open spec fn complete(&self) -> bool {
        &&& self.delivered().len() == self.ranges().len()
        &&& forall|j: int|
            0 <= j < self.ranges().len() ==> (#[trigger] self.delivered()[j]).len()
                == self.ranges()[j].length && sha256_of(self.delivered()[j])
                == self.ranges()[j].checksum.spec_bytes()
    }

    /// Which events the engine accepts in its current state.
    pub open spec fn accepts(&self, ev: &CopyEvent) -> bool {
        !self.is_finished() && match ev {
            CopyEvent::Started => self.at_start(),
            CopyEvent::Advanced => self.expecting_advance(),
            CopyEvent::Data(d) => self.expecting_data() && d@.len() <= self.remaining(),
            CopyEvent::Written => self.expecting_write_ack(),
            CopyEvent::SourceFailed => true,
            CopyEvent::SinkFailed => true,
            CopyEvent::SourceEnded => true,
        }
    }

    /// Internal well-formedness.
    pub closed spec fn inv(&self) -> bool {
        let rs = self.map@.ranges;
        &&& self.map.wf()
        &&& self.delivered@.len() <= rs.len()
        &&& (forall|j: int|
            0 <= j < self.delivered@.len() ==> (#[trigger] self.delivered@[j]).len() == rs[j].length
                && sha256_of(self.delivered@[j]) == rs[j].checksum.spec_bytes())
        &&& match self.phase {
            Phase::Starting => self.delivered@.len() == 0 && hasher_input(self.hasher)
                == Seq::<u8>::empty() && self.position == 0,
            Phase::Finished => true,
            _ => {
                &&& (self.k as int) < rs.len()
                &&& self.delivered@.len() == self.k as int
                &&& self.left <= rs[self.k as int].length
                &&& hasher_input(self.hasher).len() == rs[self.k as int].length - self.left
                &&& self.position == rs[self.k as int].offset + (rs[self.k as int].length
                    - self.left)
                &&& (self.phase is Streaming ==> self.left > 0)
            },
        }
    }

    /// A fresh engine for one walk of `map`, waiting to be started.
    pub fn new(map: &'a Bmap) -> (r: CopyEngine<'a>)
        requires
            map.wf(),
        ensures
            r.inv(),
            r.ranges() == map@.ranges,
            r.delivered() == Seq::<Seq<u8>>::empty(),
            r.cursor() == 0,
            !r.is_finished(),
            r.accepts(&CopyEvent::Started),
    {
        CopyEngine {
            map,
            k: 0,
            left: 0,
            position: 0,
            hasher: Sha256Hasher::new(),
            phase: Phase::Starting,
            delivered: Ghost(Seq::empty()),
        }
    }

    /// Runtime mirror of [`CopyEngine::accepts`], for unverified drivers.
    pub fn accepts_event(&self, ev: &CopyEvent) -> (r: bool)
        ensures
            r == self.accepts(ev),
    {
        match self.phase {
            Phase::Finished => false,
            _ => match ev {
                CopyEvent::Started => matches!(self.phase, Phase::Starting),
                CopyEvent::Advanced => matches!(self.phase, Phase::Seeking),
                CopyEvent::Data(d) => matches!(self.phase, Phase::Streaming) && d.len() as u64
                    <= self.left,
                CopyEvent::Written => matches!(self.phase, Phase::Writing),
                CopyEvent::SourceFailed => true,
                CopyEvent::SinkFailed => true,
                CopyEvent::SourceEnded => true,
            },
        }
    }

    /// Finalizes the current range's digest and either aborts on a mismatch,
    /// completes the whole walk, or moves to the next range.
    fn verify_and_next(&mut self) -> (a: CopyAction)
        requires
            old(self).inv(),
            !old(self).is_finished(),
            !old(self).at_start(),
            old(self).remaining() == 0,
        ensures
            final(self).inv(),
            final(self).ranges() == old(self).ranges(),
            (a matches CopyAction::Finished(_)) == final(self).is_finished(),
            (a matches CopyAction::Finished(fr) && fr is Ok) ==> final(self).complete(),
            a == CopyAction::Finished(Err::<(), CopyError>(CopyError::ChecksumError)) ==> ({
                &&& old(self).fed().len() == old(self).ranges()[old(self).range_index()].length
                &&& sha256_of(old(self).fed()) != old(self).ranges()[old(
                    self,
                ).range_index()].checksum.spec_bytes()
            }),
            !(a == CopyAction::Finished(Err::<(), CopyError>(CopyError::UnexpectedEof))),
            !(a == CopyAction::Finished(Err::<(), CopyError>(CopyError::ReadError))),
            !(a == CopyAction::Finished(Err::<(), CopyError>(CopyError::WriteError))),
            a matches CopyAction::Advance(_) ==> final(self).fed() == Seq::<u8>::empty() && final(
                self
            ).delivered() == old(self).delivered().push(old(self).fed()) && final(
                self
            ).expecting_advance(),
            a matches CopyAction::Advance(n) ==> ({
                &&& final(self).range_index() == old(self).range_index() + 1
                &&& final(self).range_index() < final(self).ranges().len()
                &&& final(self).remaining() == final(self).ranges()[final(
                    self
                ).range_index()].length
                &&& final(self).cursor() == final(self).ranges()[final(self).range_index()].offset
                &&& n as int == final(self).cursor() - old(self).cursor()
                &&& old(self).cursor() <= final(self).cursor()
                &&& sha256_of(old(self).fed()) == old(self).ranges()[old(
                    self
                ).range_index()].checksum.spec_bytes()
                &&& old(self).fed().len() == old(self).ranges()[old(self).range_index()].length
            }),
            (a matches CopyAction::Finished(fr) && fr is Ok) ==> ({
                &&& final(self).delivered() == old(self).delivered().push(old(self).fed())
                &&& sha256_of(old(self).fed()) == old(self).ranges()[old(
                    self
                ).range_index()].checksum.spec_bytes()
                &&& old(self).fed().len() == old(self).ranges()[old(self).range_index()].length
            }),
            !(a matches CopyAction::Read(_)),
            !(a matches CopyAction::Write(_)),
            final(self).delivered() == old(self).delivered() || final(self).delivered() == old(
                self,
            ).delivered().push(old(self).fed()),
    {
        let digest = self.hasher.finalize_reset();
        let range = &self.map.block_map()[self.k];
        let cs = range.checksum();
        if !bytes_equal(digest.as_slice(), cs.as_slice()) {
            self.phase = Phase::Finished;
            return CopyAction::Finished(Err(CopyError::ChecksumError));
        }
        proof {
            self.delivered@ = self.delivered@.push(hasher_input(old(self).hasher));
        }
        let n = self.map.block_map().len();
        self.k = self.k + 1;
        if self.k == n {
            self.phase = Phase::Finished;
            return CopyAction::Finished(Ok(()));
        }
        let next = &self.map.block_map()[self.k];
        let off = next.offset();
        let forward = off - self.position;
        self.left = next.length();
        self.position = off;
        self.phase = Phase::Seeking;
        CopyAction::Advance(forward)
    }

    /// Feeds one driver event to the engine and returns the next action.
    pub fn step(&mut self, ev: CopyEvent) -> (a: CopyAction)
        requires
            old(self).inv(),
            old(self).accepts(&ev),
        ensures
            final(self).inv(),
            final(self).ranges() == old(self).ranges(),
            (a matches CopyAction::Finished(_)) == final(self).is_finished(),
            (a matches CopyAction::Finished(fr) && fr is Ok) ==> final(self).complete(),
            a == CopyAction::Finished(Err::<(), CopyError>(CopyError::ChecksumError)) ==> ({
                &&& old(self).fed().len() == old(self).ranges()[old(self).range_index()].length
                &&& sha256_of(old(self).fed()) != old(self).ranges()[old(
                    self,
                ).range_index()].checksum.spec_bytes()
            }),
            a == CopyAction::Finished(Err::<(), CopyError>(CopyError::UnexpectedEof)) ==> (ev
                == CopyEvent::SourceEnded || (ev matches CopyEvent::Data(d) && d@.len() == 0 && old(
                self,
            ).remaining() > 0)),
            a == CopyAction::Finished(Err::<(), CopyError>(CopyError::ReadError)) ==> ev
                == CopyEvent::SourceFailed,
            a == CopyAction::Finished(Err::<(), CopyError>(CopyError::WriteError)) ==> ev
                == CopyEvent::SinkFailed,
            a matches CopyAction::Write(w) ==> (ev matches CopyEvent::Data(d) && w@ == d@ && final(
                self
            ).fed() == old(self).fed() + w@ && final(self).remaining() == old(self).remaining()
                - w@.len() && final(self).expecting_write_ack()),
            a matches CopyAction::Read(n) ==> n as int == vstd::math::min(
                final(self).remaining(),
                COPY_BUF_LEN as int,
            ) && final(self).remaining() > 0 && final(self).fed() == old(self).fed() && final(
                self
            ).expecting_data(),
            a matches CopyAction::Advance(_) ==> final(self).fed() == Seq::<u8>::empty() && final(
                self
            ).expecting_advance(),
            a matches CopyAction::Advance(n) ==> ({
                &&& final(self).range_index() < final(self).ranges().len()
                &&& final(self).remaining() == final(self).ranges()[final(
                    self
                ).range_index()].length
                &&& final(self).cursor() == final(self).ranges()[final(self).range_index()].offset
                &&& n as int == final(self).cursor() - old(self).cursor()
                &&& old(self).cursor() <= final(self).cursor()
            }),
            (a matches CopyAction::Advance(_) && !(ev matches CopyEvent::Started)) ==> ({
                &&& final(self).range_index() == old(self).range_index() + 1
                &&& final(self).delivered() == old(self).delivered().push(old(self).fed())
                &&& sha256_of(old(self).fed()) == old(self).ranges()[old(
                    self
                ).range_index()].checksum.spec_bytes()
                &&& old(self).fed().len() == old(self).ranges()[old(self).range_index()].length
                &&& old(self).remaining() == 0
            }),
            (a matches CopyAction::Advance(_) && ev matches CopyEvent::Started) ==> final(
                self
            ).range_index() == 0 && final(self).delivered() == old(self).delivered() && old(
                self
            ).cursor() == 0,
            (a matches CopyAction::Finished(fr) && fr is Ok) ==> ({
                &&& (ev matches CopyEvent::Started ==> final(self).ranges().len() == 0)
                &&& (!(ev matches CopyEvent::Started) ==> final(self).delivered() == old(
                    self
                ).delivered().push(old(self).fed()) && sha256_of(old(self).fed()) == old(
                    self
                ).ranges()[old(self).range_index()].checksum.spec_bytes() && old(self).fed().len()
                    == old(self).ranges()[old(self).range_index()].length && old(self).remaining()
                    == 0)
            }),
            a matches CopyAction::Read(_) ==> final(self).cursor() == old(self).cursor() && final(
                self
            ).range_index() == old(self).range_index() && final(self).remaining() == old(
                self
            ).remaining() && final(self).delivered() == old(self).delivered(),
            a matches CopyAction::Write(w) ==> final(self).cursor() == old(self).cursor()
                + w@.len() && final(self).range_index() == old(self).range_index() && final(
                self
            ).delivered() == old(self).delivered(),
            a matches CopyAction::Advance(_) ==> (ev matches CopyEvent::Started || ev matches
                CopyEvent::Advanced || ev matches CopyEvent::Written),
            a matches CopyAction::Read(_) ==> (ev matches CopyEvent::Advanced || ev matches
                CopyEvent::Written),
            a matches CopyAction::Write(w) ==> ev matches CopyEvent::Data(_) && w@.len() > 0,
            (a matches CopyAction::Finished(fr) && fr is Ok) ==> (ev matches CopyEvent::Started
                || ev matches CopyEvent::Advanced || ev matches CopyEvent::Written),
            a == CopyAction::Finished(Err::<(), CopyError>(CopyError::ChecksumError)) ==> (
            ev matches CopyEvent::Advanced || ev matches CopyEvent::Written),
            final(self).delivered() == old(self).delivered() || final(self).delivered() == old(
                self,
            ).delivered().push(old(self).fed()),
    {
        match ev {
            CopyEvent::SourceFailed => {
                self.phase = Phase::Finished;
                CopyAction::Finished(Err(CopyError::ReadError))
            },
            CopyEvent::SinkFailed => {
                self.phase = Phase::Finished;
                CopyAction::Finished(Err(CopyError::WriteError))
            },
            CopyEvent::SourceEnded => {
                self.phase = Phase::Finished;
                CopyAction::Finished(Err(CopyError::UnexpectedEof))
            },
            CopyEvent::Started => {
                let n = self.map.block_map().len();
                if n == 0 {
                    self.phase = Phase::Finished;
                    return CopyAction::Finished(Ok(()));
                }
                let first = &self.map.block_map()[0];
                let off = first.offset();
                self.k = 0;
                self.left = first.length();
                self.position = off;
                self.phase = Phase::Seeking;
                CopyAction::Advance(off)
            },
            CopyEvent::Advanced => {
                if self.left == 0 {
                    self.verify_and_next()
                } else {
                    self.phase = Phase::Streaming;
                    let max = if self.left < COPY_BUF_LEN as u64 {
                        self.left as usize
                    } else {
                        COPY_BUF_LEN
                    };
                    CopyAction::Read(max)
                }
            },
            CopyEvent::Data(d) => {
                if d.len() == 0 {
                    self.phase = Phase::Finished;
                    return CopyAction::Finished(Err(CopyError::UnexpectedEof));
                }
                self.hasher.update(d.as_slice());
                self.left = self.left - d.len() as u64;
                self.position = self.position + d.len() as u64;
                self.phase = Phase::Writing;
                CopyAction::Write(d)
            },
            CopyEvent::Written => {
                if self.left > 0 {
                    self.phase = Phase::Streaming;
                    let max = if self.left < COPY_BUF_LEN as u64 {
                        self.left as usize
                    } else {
                        COPY_BUF_LEN
                    };
                    CopyAction::Read(max)
                } else {
                    self.verify_and_next()
                }
            },
        }
    }
}

/// Rank of the pending driver event, for the driver loop's termination
/// measure: within one range the walk moves advance, read, write, read, ...
spec fn ev_rank(ev: &CopyEvent) -> int {
    match ev {
        CopyEvent::Started => 3,
        CopyEvent::Advanced => 3,
        CopyEvent::Written => 2,
        CopyEvent::Data(_) => 1,
        _ => 0,
    }
}

/// Drives the cooperative engine to completion over blocking calls: the two
/// engine variants are behaviorally identical, and this driver's contract is
/// the blocking engine's contract.
#[verifier::rlimit(80)]
pub fn copy_stepwise<I, O>(input: &mut I, output: &mut O, map: &Bmap) -> (r: Result<
    (),
    CopyError,
>) where
    I: ByteSource + SeekForward,
    O: ByteSink + SeekForward,

    requires
        old(input).inv(),
        old(output).inv(),
        old(input).position() == 0,
        old(output).position() == 0,
        map.wf(),
        old(output).bytes().len() >= map@.image_size,
    ensures
        final(input).inv(),
        final(output).inv(),
        final(input).bytes() == old(input).bytes(),
        final(input).reliable() == old(input).reliable(),
        final(output).reliable() == old(output).reliable(),
        final(output).bytes().len() == old(output).bytes().len(),
        r is Ok ==> forall|k: int|
            0 <= k < map@.ranges.len() ==> range_matches(
                old(input).bytes(),
                #[trigger] map@.ranges[k],
            ),
        r is Ok ==> forall|i: int|
            0 <= i < final(output).bytes().len() ==> final(output).bytes()[i] == (if offset_mapped(
                map@.ranges,
                i,
            ) {
                old(input).bytes()[i]
            } else {
                old(output).bytes()[i]
            }),
        r == Err::<(), CopyError>(CopyError::ChecksumError) ==> exists|k: int|
            0 <= k < map@.ranges.len() && range_in_stream(
                old(input).bytes().len() as int,
                #[trigger] map@.ranges[k],
            ) && sha256_of(range_bytes(old(input).bytes(), map@.ranges[k]))
                != map@.ranges[k].checksum.spec_bytes(),
        r == Err::<(), CopyError>(CopyError::UnexpectedEof) ==> exists|k: int|
            0 <= k < map@.ranges.len() && !range_in_stream(
                old(input).bytes().len() as int,
                #[trigger] map@.ranges[k],
            ),
        old(input).reliable() && old(output).reliable() ==> r == spec_copy_result(
            old(input).bytes(),
            map@.ranges,
        ),
{
    let ghost src = old(input).bytes();
    let ghost dst0 = old(output).bytes();
    let ghost rs = map@.ranges;
    let mut engine = CopyEngine::new(map);
    let mut ev = CopyEvent::Started;
    loop
        invariant
            src == old(input).bytes(),
            dst0 == old(output).bytes(),
            rs == map@.ranges,
            map.wf(),
            dst0.len() >= map@.image_size,
            input.inv(),
            output.inv(),
            input.bytes() == src,
            input.reliable() == old(input).reliable(),
            output.reliable() == old(output).reliable(),
            output.bytes().len() == dst0.len(),
            engine.inv(),
            engine.ranges() == rs,
            engine.accepts(&ev),
            !engine.is_finished(),
            !(ev matches CopyEvent::SourceFailed),
            !(ev matches CopyEvent::SinkFailed),
            !(ev matches CopyEvent::SourceEnded),
            engine.delivered().len() <= rs.len(),
            forall|j: int|
                0 <= j < engine.delivered().len() ==> range_matches(src, #[trigger] rs[j])
                    && engine.delivered()[j] == range_bytes(src, rs[j]),
            ev matches CopyEvent::Started ==> engine.at_start() && input.position() == 0
                && output.position() == 0 && engine.delivered().len() == 0 && engine.cursor() == 0,
            !(ev matches CopyEvent::Started) ==> ({
                &&& engine.range_index() == engine.delivered().len()
                &&& engine.range_index() < rs.len()
                &&& engine.remaining() <= rs[engine.range_index()].length
                &&& engine.cursor() == rs[engine.range_index()].offset + (rs[
                    engine.range_index()].length - engine.remaining())
                &&& engine.fed() == src.subrange(
                    rs[engine.range_index()].offset as int,
                    engine.cursor(),
                )
                &&& engine.cursor() <= src.len()
            }),
            ev matches CopyEvent::Advanced ==> engine.expecting_advance() && input.position()
                == engine.cursor() && output.position() == engine.cursor() && engine.remaining()
                == rs[engine.range_index()].length,
            ev matches CopyEvent::Data(d) ==> engine.expecting_data() && d@.len()
                <= engine.remaining() && input.position() == engine.cursor() + d@.len()
                && output.position() == engine.cursor() && d@ == src.subrange(
                engine.cursor(),
                engine.cursor() + d@.len(),
            ) && (d@.len() == 0 ==> engine.cursor() >= src.len()) && input.position() <= src.len(),
            ev matches CopyEvent::Written ==> engine.expecting_write_ack() && input.position()
                == engine.cursor() && output.position() == engine.cursor(),
            forall|i: int|
                0 <= i < dst0.len() ==> output.bytes()[i] == (if offset_mapped(
                    rs.take(engine.delivered().len() as int),
                    i,
                ) || (!(ev matches CopyEvent::Started) && rs[engine.range_index()].offset <= i
                    < output.position()) {
                    src[i]
                } else {
                    dst0[i]
                }),
        decreases rs.len() - engine.delivered().len() + (if engine.at_start() {
            1int
        } else {
            0
        }), engine.remaining(), ev_rank(&ev),
    {
        let ghost pre = engine;
        let act = engine.step(ev);
        match act {
            CopyAction::Advance(n) => {
                proof {
                    assert(engine.range_index() < rs.len());
                    assert(rs[engine.range_index()].offset + rs[engine.range_index()].length
                        <= map@.image_size);  // ranges_within
                    if !pre.at_start() {
                        assert(pre.fed() == range_bytes(src, rs[pre.range_index()]));
                    }
                    assert forall|i: int| 0 <= i < dst0.len() implies output.bytes()[i] == (
                    if offset_mapped(rs.take(engine.delivered().len() as int), i) {
                        src[i]
                    } else {
                        dst0[i]
                    }) by {
                        if !pre.at_start() {
                            lemma_mapped_take_succ(rs, pre.range_index(), i);
                        }
                    }
                }
                match output.flush() {
                    Ok(()) => {},
                    Err(_) => {
                        return Err(CopyError::WriteError);
                    },
                }
                match input.seek_forward(n) {
                    Ok(()) => {},
                    Err(IoError::UnexpectedEof) => {
                        proof {
                            assert(!range_in_stream(src.len() as int, rs[engine.range_index()]));
                            if old(input).reliable() && old(output).reliable() {
                                lemma_copy_result_skip(src, rs, engine.delivered().len() as int);
                                assert(rs.skip(engine.delivered().len() as int)[0]
                                    == rs[engine.range_index()]);
                            }
                        }
                        return Err(CopyError::UnexpectedEof);
                    },
                    Err(IoError::Failed) => {
                        return Err(CopyError::ReadError);
                    },
                }
                match output.seek_forward(n) {
                    Ok(()) => {},
                    Err(_) => {
                        return Err(CopyError::WriteError);
                    },
                }
                proof {
                    assert(src.subrange(
                        rs[engine.range_index()].offset as int,
                        rs[engine.range_index()].offset as int,
                    ) =~= Seq::<u8>::empty());
                }
                ev = CopyEvent::Advanced;
            },
            CopyAction::Read(max) => {
                let mut buf: Vec<u8> = vec![0u8; max];
                match input.read(&mut buf, max) {
                    Ok(nr) => {
                        let chunk = vstd::slice::slice_to_vec(
                            vstd::slice::slice_subrange(buf.as_slice(), 0, nr),
                        );
                        proof {
                            assert(chunk@ == src.subrange(
                                engine.cursor(),
                                engine.cursor() + nr,
                            ));
                        }
                        ev = CopyEvent::Data(chunk);
                    },
                    Err(_) => {
                        return Err(CopyError::ReadError);
                    },
                }
            },
            CopyAction::Write(w) => {
                let ghost pre_sink = output.bytes();
                match output.write_all(w.as_slice()) {
                    Ok(()) => {
                        proof {
                            assert(output.bytes() == splice(
                                pre_sink,
                                pre.cursor(),
                                w@,
                            ));
                            assert forall|i: int| 0 <= i < dst0.len() implies output.bytes()[i]
                                == (if offset_mapped(
                                rs.take(engine.delivered().len() as int),
                                i,
                            ) || (rs[engine.range_index()].offset <= i < engine.cursor()) {
                                src[i]
                            } else {
                                dst0[i]
                            }) by {
                                if pre.cursor() <= i < pre.cursor() + w@.len() {
                                    assert(output.bytes()[i] == w@[i - pre.cursor()]);
                                } else {
                                    assert(output.bytes()[i] == pre_sink[i]);
                                }
                            }
                        }
                        ev = CopyEvent::Written;
                    },
                    Err(_) => {
                        proof {
                            if old(output).reliable() {
                                assert(rs[pre.range_index()].offset + rs[pre.range_index()].length
                                    <= map@.image_size);  // ranges_within
                                assert(false);
                            }
                        }
                        return Err(CopyError::WriteError);
                    },
                }
            },
            CopyAction::Finished(res) => {
                match res {
                    Ok(()) => {
                        proof {
                            assert(engine.complete());
                            if !pre.at_start() {
                                assert(pre.fed() == range_bytes(src, rs[pre.range_index()]));
                            }
                            assert forall|k: int| 0 <= k < rs.len() implies range_matches(
                                src,
                                #[trigger] rs[k],
                            ) by {
                                assert(engine.delivered()[k] == range_bytes(src, rs[k]));
                            }
                            assert forall|i: int| 0 <= i < dst0.len() implies output.bytes()[i]
                                == (if offset_mapped(rs, i) {
                                src[i]
                            } else {
                                dst0[i]
                            }) by {
                                if !pre.at_start() {
                                    lemma_mapped_take_succ(rs, pre.range_index(), i);
                                }
                                assert(rs.take(rs.len() as int) =~= rs);
                            }
                            if old(input).reliable() && old(output).reliable() {
                                lemma_copy_result_skip(src, rs, rs.len() as int);
                                assert(rs.skip(rs.len() as int) =~= Seq::<RangeModel>::empty());
                            }
                        }
                        return Ok(());
                    },
                    Err(CopyError::ChecksumError) => {
                        proof {
                            assert(pre.fed() == range_bytes(src, rs[pre.range_index()]));
                            assert(range_in_stream(src.len() as int, rs[pre.range_index()]));
                            if old(input).reliable() && old(output).reliable() {
                                lemma_copy_result_skip(src, rs, pre.delivered().len() as int);
                                assert(rs.skip(pre.delivered().len() as int)[0]
                                    == rs[pre.range_index()]);
                            }
                        }
                        return Err(CopyError::ChecksumError);
                    },
                    Err(CopyError::UnexpectedEof) => {
                        proof {
                            assert(!range_in_stream(src.len() as int, rs[pre.range_index()]));
                            if old(input).reliable() && old(output).reliable() {
                                lemma_copy_result_skip(src, rs, pre.delivered().len() as int);
                                assert(rs.skip(pre.delivered().len() as int)[0]
                                    == rs[pre.range_index()]);
                            }
                        }
                        return Err(CopyError::UnexpectedEof);
                    },
                    Err(e) => {
                        return Err(e);
                    },
                }
            },
        }
    }
}

} // verus!
