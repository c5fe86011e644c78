//! The per-connection state machine's decision step. The loop itself lives
//! with the sockets: it feeds received bytes in, performs the step this
//! function decides, and closes the connection when told to.
use vstd::prelude::*;
use crate::bytes::ascii;
use crate::headers::spec_lookup;
use crate::line_reader::LineReader;
use crate::request::{Request, ParseOutcome, SpecParse, spec_parse};
use crate::handler::Action;
use crate::server::{Server, spec_dispatch};

verus! {

/// What the connection loop does next.
pub enum ConnStep {
    /// Perform the action, send the resulting response, and close the
    /// connection afterwards when the flag says so.
    Dispatch(Action, bool),
    /// The buffer holds no whole request yet: read more bytes, or close if
    /// the peer is done sending.
    NeedMoreData,
    /// The request is malformed: close the connection without a response.
    Close,
}

/// One decision of the connection loop: parse the next request out of the
/// buffer, route it, and read the Connection header. The reader ends just
/// past the request it consumed, so the next decision starts at the request
/// after it.
pub fn connection_step(server: &Server, reader: &mut LineReader) -> (r: ConnStep)
    requires
        old(reader).wf(),
    ensures
        final(reader).wf(),
        final(reader).data@ == old(reader).data@,
        match r {
            ConnStep::Dispatch(action, close) => spec_parse(
                old(reader).data@,
                old(reader).pos as int,
            ) matches SpecParse::Parsed(rv, end) && final(reader).pos == end && action@
                == spec_dispatch(server.handler.base_path@, rv) && close == (spec_lookup(
                rv.headers,
                ascii("connection"@),
            ) == Some(ascii("close"@))),
            ConnStep::NeedMoreData => spec_parse(old(reader).data@, old(reader).pos as int)
                is Incomplete,
            ConnStep::Close => spec_parse(old(reader).data@, old(reader).pos as int) is Malformed,
        },
{
    match Request::parse(reader) {
        ParseOutcome::Parsed(req) => {
            let close = req.connection_close();
            let action = server.dispatch(&req);
            ConnStep::Dispatch(action, close)
        },
        ParseOutcome::Incomplete => ConnStep::NeedMoreData,
        ParseOutcome::Malformed => ConnStep::Close,
    }
}

} // verus!
