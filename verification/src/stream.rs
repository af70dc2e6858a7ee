//! The host byte stream and the pull-reader bridge that feeds a chunk
//! load.
//!
//! The machine compiles a chunk by pulling bytes repeatedly through a
//! callback. The bridge owns the host source, a fixed-size scratch
//! buffer, and an optional deferred error: once a pull fails, every
//! later pull reports zero bytes without touching the source again, so
//! the machine unwinds cleanly instead of reading garbage, and the
//! recorded error surfaces after the machine returns.

use vstd::prelude::*;

use crate::errors::StreamError;

verus! {

/// How many bytes one pull may hand over: the scratch buffer's size.
pub const PULL_BUFFER_LEN: usize = 128;

/// What one read of the host source produced.
pub enum ReadOutcome {
    /// At least one byte; never more than asked for.
    Data(Vec<u8>),
    /// The source ended normally.
    Eof,
    /// The source failed.
    Fail(StreamError),
}

/// A byte-producing host source: yields its bytes in order, then
/// either ends or fails at a set position, modeling any pull source
/// ("read up to N bytes, or signal end-of-stream, or fail").
pub struct ByteSource {
    data: Vec<u8>,
    pos: usize,
    fail_at: Option<(usize, StreamError)>,
}

impl ByteSource {
    /// The position the next read starts from.
    pub closed spec fn spec_pos(&self) -> nat {
        self.pos as nat
    }

    /// All bytes the source was built over.
    pub closed spec fn spec_data(&self) -> Seq<u8> {
        self.data@
    }

    /// Whether the source eventually fails instead of ending.
    pub closed spec fn fails(&self) -> bool {
        self.fail_at is Some
    }

    /// Where the source fails, when it does.
    pub closed spec fn fail_pos(&self) -> nat {
        self.fail_at->Some_0.0 as nat
    }

    /// The error the source fails with, when it does.
    pub closed spec fn fail_error(&self) -> StreamError {
        self.fail_at->Some_0.1
    }

    /// The byte position the source serves until: its end, or the
    /// point of failure.
    pub open spec fn limit(&self) -> nat {
        if self.fails() {
            self.fail_pos()
        } else {
            self.spec_data().len()
        }
    }

    /// The position never runs past the data, nor past the failure
    /// point.
    pub open spec fn wf(&self) -> bool {
        &&& self.spec_pos() <= self.limit()
        &&& self.limit() <= self.spec_data().len()
    }

    /// The bytes still to come before the source ends or fails.
    pub open spec fn remaining(&self) -> Seq<u8> {
        self.spec_data().subrange(self.spec_pos() as int, self.limit() as int)
    }

    /// A source over `data` that ends normally.
    pub fn from_bytes(data: Vec<u8>) -> (r: ByteSource)
        ensures
            r.wf(),
            r.spec_pos() == 0,
            r.spec_data() == data@,
            !r.fails(),
            r.remaining() == data@,
    {
        let r = ByteSource { data, pos: 0, fail_at: None };
        proof {
            assert(r.remaining() =~= r.spec_data());
        }
        r
    }

    /// A source that serves the first `at` bytes of `data` and then
    /// fails with `err`.
    pub fn failing_at(data: Vec<u8>, at: usize, err: StreamError) -> (r: ByteSource)
        requires
            at <= data@.len(),
        ensures
            r.wf(),
            r.spec_pos() == 0,
            r.spec_data() == data@,
            r.fails(),
            r.fail_pos() == at as nat,
            r.fail_error() == err,
            r.remaining() == data@.subrange(0, at as int),
    {
        ByteSource { data, pos: 0, fail_at: Some((at, err)) }
    }

    /// One read of up to `max` bytes: data while bytes remain before
    /// the limit, then the failure if one is set, else end-of-stream.
    pub fn read_up_to(&mut self, max: usize) -> (r: ReadOutcome)
        requires
            old(self).wf(),
            max >= 1,
        ensures
            final(self).wf(),
            final(self).spec_data() == old(self).spec_data(),
            final(self).fails() == old(self).fails(),
            old(self).fails() ==> final(self).fail_pos() == old(self).fail_pos() && final(self).fail_error() == old(self).fail_error(),
            ({
                let served: int = if old(self).limit() - old(self).spec_pos() < max as int {
                    old(self).limit() - old(self).spec_pos()
                } else {
                    max as int
                };
                if old(self).spec_pos() < old(self).limit() {
                    r matches ReadOutcome::Data(b) && b@ == old(self).spec_data().subrange(
                        old(self).spec_pos() as int,
                        old(self).spec_pos() + served,
                    ) && b@.len() == served && final(self).spec_pos() == old(self).spec_pos()
                        + served
                } else if old(self).fails() {
                    r matches ReadOutcome::Fail(e) && e == old(self).fail_error() && final(self).spec_pos() == old(self).spec_pos()
                } else {
                    r is Eof && final(self).spec_pos() == old(self).spec_pos()
                }
            }),
    {
        let lim: usize = match &self.fail_at {
            Some(f) => f.0,
            None => self.data.len(),
        };
        if self.pos < lim {
            let avail = lim - self.pos;
            let n = if avail < max {
                avail
            } else {
                max
            };
            let dlen = self.data.len();
            let mut out: Vec<u8> = Vec::new();
            let mut i: usize = 0;
            while i < n
                invariant
                    self.wf(),
                    dlen == self.data@.len(),
                    self.pos + n <= dlen,
                    0 <= i <= n,
                    out@ == self.data@.subrange(self.pos as int, self.pos + i as int),
                decreases n - i,
            {
                out.push(self.data[self.pos + i]);
                proof {
                    assert(out@ =~= self.data@.subrange(self.pos as int, self.pos + (i + 1)));
                }
                i = i + 1;
            }
            self.pos = self.pos + n;
            ReadOutcome::Data(out)
        } else {
            match &self.fail_at {
                Some(f) => ReadOutcome::Fail(f.1),
                None => ReadOutcome::Eof,
            }
        }
    }
}

/// The bridge the pull callback works on: the host source, the fixed
/// scratch-buffer size, and the deferred error.
pub struct ReadData {
    /// The host source being streamed.
    pub reader: ByteSource,
    /// Set once a pull failed; later pulls report zero bytes without
    /// touching the source again.
    pub triggered_error: Option<StreamError>,
}

/// One pull of the machine's reader callback: the bytes handed to the
/// machine, empty meaning end-of-input. A failure is recorded in the
/// bridge and also reported as end-of-input, so the machine unwinds;
/// a source that already failed is never touched again.
pub fn reader(data: &mut ReadData) -> (chunk: Vec<u8>)
    requires
        old(data).reader.wf(),
    ensures
        final(data).reader.wf(),
        final(data).reader.spec_data() == old(data).reader.spec_data(),
        final(data).reader.fails() == old(data).reader.fails(),
        old(data).reader.fails() ==> final(data).reader.fail_pos() == old(data).reader.fail_pos() && final(data).reader.fail_error() == old(data).reader.fail_error(),
        old(data).triggered_error is Some ==> chunk@.len() == 0 && *final(data) == *old(data),
        old(data).triggered_error is None ==> ({
            let pos = old(data).reader.spec_pos();
            let lim = old(data).reader.limit();
            if pos < lim {
                let served: int = if lim - pos < PULL_BUFFER_LEN as int {
                    lim - pos
                } else {
                    PULL_BUFFER_LEN as int
                };
                chunk@.len() == served && chunk@ == old(data).reader.spec_data().subrange(
                    pos as int,
                    pos + served,
                ) && final(data).reader.spec_pos() == pos + served && final(data).triggered_error
                    is None
            } else if old(data).reader.fails() {
                chunk@.len() == 0 && final(data).reader.spec_pos() == pos && final(data).triggered_error == Some(old(data).reader.fail_error())
            } else {
                chunk@.len() == 0 && final(data).reader.spec_pos() == pos && final(data).triggered_error is None
            }
        }),
{
    if data.triggered_error.is_some() {
        return Vec::new();
    }
    let outcome = data.reader.read_up_to(PULL_BUFFER_LEN);
    match outcome {
        ReadOutcome::Data(b) => b,
        ReadOutcome::Eof => Vec::new(),
        ReadOutcome::Fail(e) => {
            data.triggered_error = Some(e);
            Vec::new()
        },
    }
}

} // verus!
