//! Bounded accumulation of an incoming byte stream.
//!
//! A `StreamWriter` stands for the temporary file an upload streams into
//! before it is atomically renamed to its destination: chunks arrive one at
//! a time, the writer never holds more than the configured maximum, and the
//! first chunk that would push it past that limit aborts the stream and
//! discards everything received — no partially written destination can ever
//! be observed.

use vstd::prelude::*;

use crate::errors::UploadError;

verus! {

/// Chunk-wise accumulator for one upload, bounded by a maximum size.
pub struct StreamWriter {
    buf: Vec<u8>,
    max_size: usize,
    aborted: bool,
}

impl StreamWriter {
    /// The bytes received so far.
    pub closed spec fn spec_buf(&self) -> Seq<u8> {
        self.buf@
    }

    /// The configured maximum upload size.
    pub closed spec fn spec_max(&self) -> int {
        self.max_size as int
    }

    /// The stream was aborted: its bytes are gone and it can no longer be
    /// finished.
    pub closed spec fn is_aborted(&self) -> bool {
        self.aborted
    }

    /// A live writer never buffers more than the configured maximum.
    pub open spec fn wf(&self) -> bool {
        !self.is_aborted() ==> self.spec_buf().len() <= self.spec_max()
    }

    /// A fresh writer for one upload, holding nothing yet.
    pub fn new(max_size: usize) -> (r: StreamWriter)
        ensures
            r.wf(),
            !r.is_aborted(),
            r.spec_buf().len() == 0,
            r.spec_max() == max_size as int,
    {
        StreamWriter { buf: Vec::new(), max_size, aborted: false }
    }

    /// Accepts the next chunk of the stream. Succeeds exactly when the
    /// bytes received so far, together with this chunk, still fit the
    /// maximum; otherwise the stream is aborted, everything received is
    /// discarded, and the upload fails with `SizeExceeded`.
    pub fn push(&mut self, chunk: &[u8]) -> (r: Result<(), UploadError>)
        requires
            old(self).wf(),
            !old(self).is_aborted(),
        ensures
            final(self).wf(),
            final(self).spec_max() == old(self).spec_max(),
            match r {
                Ok(()) => {
                    &&& !final(self).is_aborted()
                    &&& final(self).spec_buf() == old(self).spec_buf() + chunk@
                    &&& old(self).spec_buf().len() + chunk@.len() <= old(self).spec_max()
                },
                Err(e) => {
                    &&& e == UploadError::SizeExceeded
                    &&& final(self).is_aborted()
                    &&& final(self).spec_buf().len() == 0
                    &&& old(self).spec_buf().len() + chunk@.len() > old(self).spec_max()
                },
            },
    {
        if chunk.len() > self.max_size - self.buf.len() {
            self.aborted = true;
            self.buf = Vec::new();
            return Err(UploadError::SizeExceeded);
        }
        let cv = vstd::slice::slice_to_vec(chunk);
        crate::bytes_util::append_bytes(&mut self.buf, &cv);
        Ok(())
    }

    /// Abandons the stream: the transport layer calls this when the client
    /// disconnects or a storage write fails mid-upload. Everything received
    /// is discarded and nothing is ever recorded at the destination.
    pub fn abort(&mut self)
        ensures
            final(self).wf(),
            final(self).is_aborted(),
            final(self).spec_buf().len() == 0,
            final(self).spec_max() == old(self).spec_max(),
    {
        self.aborted = true;
        self.buf = Vec::new();
    }

    /// Finalizes a live stream, yielding the complete body for the atomic
    /// move into the store.
    pub fn into_bytes(self) -> (r: Vec<u8>)
        requires
            self.wf(),
            !self.is_aborted(),
        ensures
            r@ == self.spec_buf(),
            r@.len() <= self.spec_max(),
    {
        self.buf
    }
}

} // verus!
