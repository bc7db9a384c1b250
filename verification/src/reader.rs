//! The decisions of the connection reader, which gathers the bytes of one
//! request read by read.

use vstd::prelude::*;

verus! {

/// The most bytes that one read is asked for.
pub const CHUNK_SIZE: usize = 1024;

/// What a read on the connection brought.
#[derive(Debug, Clone, Copy)]
pub enum ReadEvent<'a> {
    /// The bytes read; none where the peer has closed the connection.
    Data(&'a [u8]),
    /// The read failed.
    Failed,
}

/// What the reader does next.
#[derive(Debug, Clone, Copy, PartialEq, Eq, Structural)]
pub enum ReadStep {
    /// The last read filled its chunk: more bytes may be pending, read again.
    Continue,
    /// The request ends here.
    Stop,
}

/// The bytes gathered from a connection so far.
#[derive(Debug, PartialEq, Eq)]
pub struct ByteReader {
    buffer: Vec<u8>,
}

impl View for ByteReader {
    type V = Seq<u8>;

    closed spec fn view(&self) -> Seq<u8> {
        self.buffer@
    }
}

/// The bytes gathered once `event` has been taken in: those read are added
/// at the end, a failed read adds nothing.
pub open spec fn gathered(before: Seq<u8>, event: ReadEvent) -> Seq<u8> {
    match event {
        ReadEvent::Data(chunk) => before + chunk@,
        ReadEvent::Failed => before,
    }
}

/// What follows `event`: the reader reads again only after a read that
/// filled its chunk. A shorter read, a read of nothing from a closed
/// connection and a failed read all end the request.
pub open spec fn next_step(event: ReadEvent) -> ReadStep {
    match event {
        ReadEvent::Data(chunk) => if chunk@.len() < CHUNK_SIZE {
            ReadStep::Stop
        } else {
            ReadStep::Continue
        },
        ReadEvent::Failed => ReadStep::Stop,
    }
}

impl ByteReader {
    /// A reader that has gathered nothing yet.
    pub fn new() -> (reader: ByteReader)
        ensures
            reader@ == Seq::<u8>::empty(),
    {
        ByteReader { buffer: Vec::new() }
    }

    /// Takes in what a read brought and decides whether to read again.
    pub fn step(&mut self, event: ReadEvent) -> (step: ReadStep)
        ensures
            final(self)@ == gathered(old(self)@, event),
            step == next_step(event),
    {
        match event {
            ReadEvent::Data(chunk) => {
                self.buffer.extend_from_slice(chunk);
                assert(self.buffer@ =~= old(self).buffer@ + chunk@);
                if chunk.len() < CHUNK_SIZE {
                    ReadStep::Stop
                } else {
                    ReadStep::Continue
                }
            },
            ReadEvent::Failed => ReadStep::Stop,
        }
    }

    /// Hands out the bytes gathered, in the order in which they came.
    pub fn into_bytes(self) -> (bytes: Vec<u8>)
        ensures
            bytes@ == self@,
    {
        self.buffer
    }
}

} // verus!
