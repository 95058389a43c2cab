//! Draining a request body: chunks arrive one at a time and are gathered
//! into one buffer before any reply is produced.
use vstd::prelude::*;

verus! {

/// What the transport reports when the next chunk of a body is awaited.
pub enum ChunkEvent {
    /// More bytes of the body.
    Data(Vec<u8>),
    /// Reading failed (connection dropped, transport fault).
    Failed,
    /// The body has ended.
    End,
}

/// What the driver of the body loop must do next.
#[derive(Debug, Clone, Copy, PartialEq, Eq)]
pub enum DrainAction {
    /// Await the next chunk.
    ReadMore,
    /// The body is complete: produce the reply.
    Finish,
    /// Give up on this request: no partial reply.
    Abort,
}

/// The bytes of a body received so far.
pub struct BodyBuffer {
    bytes: Vec<u8>,
}

impl View for BodyBuffer {
    type V = Seq<u8>;

    closed spec fn view(&self) -> Seq<u8> {
        self.bytes@
    }
}

impl BodyBuffer {
    /// A buffer that holds nothing yet.
    pub fn new() -> (r: BodyBuffer)
        ensures
            r@ == Seq::<u8>::empty(),
    {
        BodyBuffer { bytes: Vec::new() }
    }

    /// Takes in one event of the body stream and says what to do next.
    /// Data is appended as it came; the end and a failure leave the bytes alone.
    pub fn step(&mut self, event: ChunkEvent) -> (action: DrainAction)
        ensures
            match event {
                ChunkEvent::Data(chunk) => final(self)@ == old(self)@ + chunk@ && action
                    == DrainAction::ReadMore,
                ChunkEvent::Failed => final(self)@ == old(self)@ && action == DrainAction::Abort,
                ChunkEvent::End => final(self)@ == old(self)@ && action == DrainAction::Finish,
            },
    {
        match event {
            ChunkEvent::Data(mut chunk) => {
                self.bytes.append(&mut chunk);
                DrainAction::ReadMore
            },
            ChunkEvent::Failed => DrainAction::Abort,
            ChunkEvent::End => DrainAction::Finish,
        }
    }

    /// Number of bytes received so far.
    pub fn len(&self) -> (r: usize)
        ensures
            r == self@.len(),
    {
        self.bytes.len()
    }

    /// The whole body, once the stream has ended.
    pub fn into_bytes(self) -> (r: Vec<u8>)
        ensures
            r@ == self@,
    {
        self.bytes
    }
}

} // verus!
