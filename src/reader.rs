//! Sequential reader over the entries of an archive.
//!
//! The reader decides; its caller does the input. To move to the next
//! entry the caller asks `start_next` how far to skip forward in the
//! source, skips, reads one block into `buf`, and hands the count it read
//! to `on_block`. While an entry is current, `payload_limit` bounds each
//! payload read and `on_payload_read` records what came back.
use vstd::prelude::*;

use crate::constants::{TarBlock, BLOCK_SIZE, SIZE_END, SIZE_START};
use crate::error::TarError;
use crate::header::{
    block_span, checksum_valid, decode_failure, decodes_to, field, header_decodes, TarHeader,
};
use crate::utils::{lemma_octal_field_bound, lemma_pow8_values};

verus! {

/// Where a reader stands between two entries.
#[derive(PartialEq, Eq, Structural, Clone, Copy)]
enum Phase {
    /// No header is expected yet; an entry may be current.
    Idle,
    /// The caller has skipped the previous payload and reads the next block.
    AwaitingBlock,
    /// The archive ended or could not be read further.
    Ended,
}

/// True when every byte of a block is zero.
pub open spec fn is_zero_block(block: Seq<u8>) -> bool {
    forall|i: int| 0 <= i < block.len() ==> block[i] == 0
}

/// Where a walk over an archive stands: the phase, and the counters of the
/// current entry.
pub struct ReaderState {
    to_advance: u64,
    to_read: usize,
    phase: Phase,
}

impl ReaderState {
    /// Bytes that the caller must skip before the next header: the part of
    /// the current entry's padded payload that has not been read.
    pub closed spec fn pending(&self) -> int {
        self.to_advance as int
    }

    /// Bytes of the current entry's payload that have not been read.
    pub closed spec fn remaining(&self) -> int {
        self.to_read as int
    }

    /// True once the archive has ended or failed.
    pub closed spec fn is_ended(&self) -> bool {
        self.phase == Phase::Ended
    }

    /// True between `start_next` and `on_block`.
    pub closed spec fn awaiting_block(&self) -> bool {
        self.phase == Phase::AwaitingBlock
    }

    /// The state's invariant.
    pub closed spec fn wf(&self) -> bool {
        &&& self.to_read as int <= self.to_advance as int
        &&& self.phase != Phase::Idle ==> self.to_advance == 0 && self.to_read == 0
    }
}

/// A walk over the entries of an archive.
pub struct TarReader<T> {
    /// The byte source, which the caller reads and seeks.
    pub handle: T,
    /// The block that the caller reads each header into.
    pub buf: TarBlock,
    /// Where the walk stands; only the reader's methods change it.
    pub state: ReaderState,
}

impl<T> TarReader<T> {
    /// Bytes that the caller must skip before the next header.
    pub open spec fn pending(&self) -> int {
        self.state.pending()
    }

    /// Bytes of the current entry's payload that have not been read.
    pub open spec fn remaining(&self) -> int {
        self.state.remaining()
    }

    /// True once the archive has ended or failed.
    pub open spec fn is_ended(&self) -> bool {
        self.state.is_ended()
    }

    /// True between `start_next` and `on_block`.
    pub open spec fn awaiting_block(&self) -> bool {
        self.state.awaiting_block()
    }

    /// The byte source.
    pub open spec fn source(&self) -> T {
        self.handle
    }

    /// The bytes of the block that the caller read the last header into.
    pub open spec fn block(&self) -> Seq<u8> {
        self.buf@
    }

    /// The reader's invariant.
    pub open spec fn wf(&self) -> bool {
        &&& self.state.wf()
        &&& self.buf@.len() == BLOCK_SIZE
    }

    /// A reader at the start of the archive that `handle` holds.
    pub fn new(handle: T) -> (r: TarReader<T>)
        ensures
            r.wf(),
            r.source() == handle,
            !r.is_ended(),
            !r.awaiting_block(),
            r.pending() == 0,
            r.remaining() == 0,
    {
        Self {
            handle,
            buf: [0u8; 512],
            state: ReaderState { to_advance: 0, to_read: 0, phase: Phase::Idle },
        }
    }

    /// Move on towards the next header.
    ///
    /// Returns how many bytes the caller must skip forward in the source
    /// before it reads the next block into `buf`; the current entry, if
    /// any, is given up. Fails with `FileEnd` once the reader has ended.
    pub fn start_next(&mut self) -> (r: Result<u64, TarError>)
        requires
            old(self).wf(),
        ensures
            final(self).wf(),
            final(self).source() == old(self).source(),
            final(self).block() == old(self).block(),
            old(self).is_ended() ==> (r matches Err(e) && e is FileEnd) && final(self).is_ended(),
            !old(self).is_ended() ==> r == Ok::<u64, TarError>(old(self).pending() as u64),
            !old(self).is_ended() ==> final(self).awaiting_block() && final(self).pending() == 0
                && final(self).remaining() == 0,
    {
        if self.state.phase == Phase::Ended {
            return Err(TarError::FileEnd);
        }
        let skip: u64 = self.state.to_advance;
        self.state.to_advance = 0;
        self.state.to_read = 0;
        self.state.phase = Phase::AwaitingBlock;
        Ok(skip)
    }

    /// The caller failed to skip or to read: the reader ends.
    pub fn on_io_error(&mut self)
        requires
            old(self).wf(),
        ensures
            final(self).wf(),
            final(self).source() == old(self).source(),
            final(self).block() == old(self).block(),
            final(self).is_ended(),
    {
        self.end();
    }

    fn end(&mut self)
        ensures
            final(self).wf(),
            final(self).source() == old(self).source(),
            final(self).block() == old(self).block(),
            final(self).is_ended(),
            final(self).pending() == 0,
            final(self).remaining() == 0,
    {
        self.state.to_advance = 0;
        self.state.to_read = 0;
        self.state.phase = Phase::Ended;
    }

    /// Decode the header that the caller has read into `buf`, where `read`
    /// is the number of bytes that its read returned.
    ///
    /// A short block or a block of zeros ends the archive with `FileEnd`,
    /// and so does a call that `start_next` did not come before. A block
    /// that does not decode fails as `TarHeader::from_block` does and ends
    /// the reader too. A decoded header becomes the current entry.
    pub fn on_block(&mut self, read: usize) -> (r: Result<TarHeader, TarError>)
        requires
            old(self).wf(),
        ensures
            final(self).wf(),
            final(self).source() == old(self).source(),
            final(self).block() == old(self).block(),
            r is Ok <==> old(self).awaiting_block() && read == BLOCK_SIZE && !is_zero_block(
                old(self).block(),
            ) && checksum_valid(old(self).block()) && header_decodes(old(self).block()),
            r matches Ok(h) ==> decodes_to(old(self).block(), h) && !final(self).is_ended()
                && !final(self).awaiting_block() && final(self).remaining() == h.size
                && final(self).pending() == block_span(h.size as int) * 512,
            r is Err ==> final(self).is_ended(),
            r matches Err(e) ==> (e is FileEnd <==> !old(self).awaiting_block() || read
                != BLOCK_SIZE || is_zero_block(old(self).block())),
            r matches Err(e) ==> (e is FileEnd || decode_failure(old(self).block(), e)),
    {
        if self.state.phase != Phase::AwaitingBlock || read != BLOCK_SIZE {
            self.end();
            return Err(TarError::FileEnd);
        }
        if all_zero(&self.buf) {
            // A block of zeros marks the end of the archive.
            self.end();
            return Err(TarError::FileEnd);
        }
        match TarHeader::from_block(&self.buf) {
            Ok(header) => {
                proof {
                    lemma_octal_field_bound(field(self.buf@, SIZE_START, SIZE_END));
                    lemma_pow8_values();
                }
                let span: usize = header.block_size();
                assert(span * 512 <= header.size + 511) by (nonlinear_arith)
                    requires
                        span == (header.size + 511) / 512,
                ;
                assert(span * 512 >= header.size) by (nonlinear_arith)
                    requires
                        span == (header.size + 511) / 512,
                ;
                self.state.to_advance = span as u64 * 512;
                self.state.to_read = header.size;
                self.state.phase = Phase::Idle;
                Ok(header)
            },
            Err(e) => {
                self.end();
                Err(e)
            },
        }
    }

    /// How many bytes a payload read into a buffer of `buf_len` bytes may
    /// ask for: never more than the current entry has left.
    pub fn payload_limit(&self, buf_len: usize) -> (r: usize)
        ensures
            r == if buf_len <= self.remaining() {
                buf_len as int
            } else {
                self.remaining()
            },
    {
        if buf_len <= self.state.to_read {
            buf_len
        } else {
            self.state.to_read
        }
    }

    /// Record that a payload read returned `n` bytes.
    pub fn on_payload_read(&mut self, n: usize)
        requires
            old(self).wf(),
            n <= old(self).remaining(),
        ensures
            final(self).wf(),
            final(self).source() == old(self).source(),
            final(self).block() == old(self).block(),
            final(self).is_ended() == old(self).is_ended(),
            final(self).awaiting_block() == old(self).awaiting_block(),
            final(self).remaining() == old(self).remaining() - n,
            final(self).pending() == old(self).pending() - n,
    {
        self.state.to_read = self.state.to_read - n;
        self.state.to_advance = self.state.to_advance - n as u64;
    }
}

/// True when every byte of the block is zero.
fn all_zero(block: &TarBlock) -> (r: bool)
    ensures
        r == is_zero_block(block@),
{
    let mut i: usize = 0;
    while i < BLOCK_SIZE
        invariant
            block@.len() == BLOCK_SIZE,
            i <= BLOCK_SIZE,
            forall|j: int| 0 <= j < i ==> block@[j] == 0,
        decreases BLOCK_SIZE - i,
    {
        if block[i] != 0 {
            return false;
        }
        i = i + 1;
    }
    true
}

} // verus!
