//! The decisions of the query endpoint: what to answer once a query was
//! prepared, and how the bytes of a result are cut into chunks.

use vstd::prelude::*;

verus! {

/// How many chunks may wait between the worker that writes a result and the
/// response that sends it.
pub const QUERY_CHANNEL_CAPACITY: usize = 8;

/// The media type of a streamed result.
pub open spec fn stream_media_type() -> Seq<char> {
    "application/vnd.apache.arrow.stream"@
}

/// What the worker reports of the preparation of a query.
#[derive(Debug)]
pub enum Preparation {
    /// The query was parsed and planned; its result can be streamed.
    Ready,
    /// The query was refused, with this message.
    Rejected(String),
    /// The worker ended without a report.
    Lost,
}

/// The body of a reply.
#[derive(Debug)]
pub enum ReplyBody {
    /// The chunks of the result, as they come.
    Stream,
    /// A text.
    Text(String),
}

/// The head and body of the reply to a query.
#[derive(Debug)]
pub struct Reply {
    pub status: u16,
    pub content_type: &'static str,
    pub body: ReplyBody,
}

/// The reply to a query, given the report of its preparation: status 200 and
/// the stream where the query is ready, 400 and the message where it was
/// refused, 500 where the worker was lost.
pub fn reply_to(report: Preparation) -> (r: Reply)
    ensures
        match report {
            Preparation::Ready => r.status == 200 && r.content_type@ == stream_media_type()
                && r.body is Stream,
            Preparation::Rejected(message) => r.status == 400 && r.content_type@ == "text/plain"@
                && r.body == ReplyBody::Text(message),
            Preparation::Lost => r.status == 500 && r.content_type@ == "text/plain"@ && (match r
                .body {
                ReplyBody::Text(t) => t@ == "query task panicked"@,
                ReplyBody::Stream => false,
            }),
        },
{
    match report {
        Preparation::Ready => Reply {
            status: 200,
            content_type: "application/vnd.apache.arrow.stream",
            body: ReplyBody::Stream,
        },
        Preparation::Rejected(message) => Reply {
            status: 400,
            content_type: "text/plain",
            body: ReplyBody::Text(message),
        },
        Preparation::Lost => Reply {
            status: 500,
            content_type: "text/plain",
            body: ReplyBody::Text("query task panicked".to_owned()),
        },
    }
}

/// The bytes written since the last chunk was taken.
pub struct ChunkBuffer {
    buf: Vec<u8>,
}

impl View for ChunkBuffer {
    type V = Seq<u8>;

    closed spec fn view(&self) -> Seq<u8> {
        self.buf@
    }
}

impl ChunkBuffer {
    /// A buffer without bytes.
    pub fn new() -> (r: ChunkBuffer)
        ensures
            r@ == Seq::<u8>::empty(),
    {
        ChunkBuffer { buf: Vec::new() }
    }

    /// Takes in `data` whole, and says how many bytes it took.
    pub fn write(&mut self, data: &[u8]) -> (n: usize)
        ensures
            final(self)@ == old(self)@ + data@,
            n == data@.len(),
    {
        self.buf.extend_from_slice(data);
        data.len()
    }

    /// Hands out the bytes written so far as one chunk and starts anew; hands
    /// out nothing where no byte was written.
    pub fn take_chunk(&mut self) -> (r: Option<Vec<u8>>)
        ensures
            final(self)@ == Seq::<u8>::empty(),
            old(self)@.len() == 0 ==> r is None,
            old(self)@.len() > 0 ==> (match r {
                Some(chunk) => chunk@ == old(self)@,
                None => false,
            }),
    {
        if self.buf.len() == 0 {
            return None;
        }
        let mut chunk: Vec<u8> = Vec::new();
        std::mem::swap(&mut self.buf, &mut chunk);
        Some(chunk)
    }
}

} // verus!
