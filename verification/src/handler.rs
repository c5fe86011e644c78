//! The route handlers: echo, user-agent reflection, file read/write, the
//! root, and not-found. The file route does no filesystem work itself: it
//! yields the exact path and bytes for the surrounding program, and turns the
//! filesystem's answer back into a response.
use vstd::prelude::*;
use crate::bytes::{ascii, bytes_of, bytes_eq};
use crate::headers::{spec_lookup, spec_set, header_lookup};
use crate::request::{Request, ReqView};
use crate::response::{Response, RespView, spec_new, spec_new_headers, spec_serialize, append_bytes};

verus! {

/// What the router decides: a finished response, or the filesystem step the
/// surrounding program must perform before one can be built.
pub enum Action {
    Done(Response),
    ReadFile(Vec<u8>),
    WriteFile(Vec<u8>, Vec<u8>),
}

/// Mathematical image of an action.
pub enum SpecAction {
    Done(RespView),
    ReadFile(Seq<u8>),
    WriteFile(Seq<u8>, Seq<u8>),
}

impl View for Action {
    type V = SpecAction;

    open spec fn view(&self) -> SpecAction {
        match self {
            Action::Done(r) => SpecAction::Done(r@),
            Action::ReadFile(p) => SpecAction::ReadFile(p@),
            Action::WriteFile(p, b) => SpecAction::WriteFile(p@, b@),
        }
    }
}

/// A file name joined under the base directory, with exactly one slash
/// between them.
pub open spec fn spec_join(base: Seq<u8>, seg: Seq<u8>) -> Seq<u8> {
    if base.len() > 0 && base.last() == 47 {
        base + seg
    } else {
        base + seq![47u8] + seg
    }
}

pub open spec fn spec_handle_root() -> RespView {
    spec_new(ascii("200 OK"@), Seq::empty())
}

pub open spec fn spec_handle_not_found() -> RespView {
    spec_new(ascii("404 Not Found"@), Seq::empty())
}

/// Echo: the second path segment as the body, or a bad request when the
/// target has no second segment.
pub open spec fn spec_handle_echo(req: ReqView) -> RespView {
    if req.path.len() < 2 {
        spec_new(ascii("400 Bad Request"@), Seq::empty())
    } else {
        spec_new(ascii("200 OK"@), req.path[1])
    }
}

/// User-agent reflection: the User-Agent header value, looked up
/// case-insensitively, or the literal `Unknown` when absent.
pub open spec fn spec_handle_user_agent(req: ReqView) -> RespView {
    match spec_lookup(req.headers, ascii("user-agent"@)) {
        Some(v) => spec_new(ascii("200 OK"@), v),
        None => spec_new(ascii("200 OK"@), ascii("Unknown"@)),
    }
}

/// The file route: GET asks for a read, POST for a write of the request
/// body, any other method is not allowed, and a target without a file name
/// is a bad request.
pub open spec fn spec_handle_file(base: Seq<u8>, req: ReqView) -> SpecAction {
    if req.method == ascii("POST"@) {
        if req.path.len() < 2 {
            SpecAction::Done(spec_new(ascii("400 Bad Request"@), Seq::empty()))
        } else {
            SpecAction::WriteFile(spec_join(base, req.path[1]), req.body)
        }
    } else if req.method == ascii("GET"@) {
        if req.path.len() < 2 {
            SpecAction::Done(spec_new(ascii("400 Bad Request"@), Seq::empty()))
        } else {
            SpecAction::ReadFile(spec_join(base, req.path[1]))
        }
    } else {
        SpecAction::Done(spec_new(ascii("405 Method Not Allowed"@), Seq::empty()))
    }
}

/// The response a finished file read maps to: the content with an
/// octet-stream content type, or a bad request carrying the error
/// description.
pub open spec fn spec_file_get(result: Result<Seq<u8>, Seq<u8>>) -> RespView {
    match result {
        Ok(content) => RespView {
            status_code: ascii("200 OK"@),
            headers: spec_set(
                spec_new_headers(content.len()),
                ascii("Content-Type"@),
                ascii("application/octet-stream"@),
            ),
            body: content,
        },
        Err(msg) => spec_new(ascii("400 Bad Request"@), msg),
    }
}

/// The response a finished file write maps to: created, or a bad request
/// carrying the error description.
pub open spec fn spec_file_post(result: Result<(), Seq<u8>>) -> RespView {
    match result {
        Ok(_) => spec_new(ascii("201 Created"@), Seq::empty()),
        Err(msg) => spec_new(ascii("400 Bad Request"@), msg),
    }
}

/// The handlers, configured with the base directory for file operations.
pub struct HTTPHandler {
    pub base_path: Vec<u8>,
}

impl HTTPHandler {
    pub fn new(base_path: Vec<u8>) -> (r: HTTPHandler)
        ensures
            r.base_path@ == base_path@,
    {
        HTTPHandler { base_path }
    }

    pub fn handle_root(&self, _req: &Request) -> (r: Response)
        ensures
            r@ == spec_handle_root(),
    {
        proof {
            reveal_strlit("200 OK");
        }
        let status = bytes_of("200 OK");
        let body: Vec<u8> = Vec::new();
        Response::new(status.as_slice(), body.as_slice())
    }

    pub fn handle_not_found(&self) -> (r: Response)
        ensures
            r@ == spec_handle_not_found(),
    {
        proof {
            reveal_strlit("404 Not Found");
        }
        let status = bytes_of("404 Not Found");
        let body: Vec<u8> = Vec::new();
        Response::new(status.as_slice(), body.as_slice())
    }

    pub fn handle_echo(&self, req: &Request) -> (r: Response)
        ensures
            r@ == spec_handle_echo(req@),
    {
        proof {
            reveal_strlit("200 OK");
            reveal_strlit("400 Bad Request");
        }
        if req.path.len() < 2 {
            let status = bytes_of("400 Bad Request");
            let body: Vec<u8> = Vec::new();
            Response::new(status.as_slice(), body.as_slice())
        } else {
            let status = bytes_of("200 OK");
            assert(req@.path[1] == req.path@[1]@);
            Response::new(status.as_slice(), req.path[1].as_slice())
        }
    }

    pub fn handle_user_agent(&self, req: &Request) -> (r: Response)
        ensures
            r@ == spec_handle_user_agent(req@),
    {
        proof {
            reveal_strlit("200 OK");
            reveal_strlit("user-agent");
            reveal_strlit("Unknown");
        }
        let status = bytes_of("200 OK");
        let key = bytes_of("user-agent");
        match header_lookup(&req.headers, key.as_slice()) {
            Some(v) => Response::new(status.as_slice(), v.as_slice()),
            None => {
                let unknown = bytes_of("Unknown");
                Response::new(status.as_slice(), unknown.as_slice())
            },
        }
    }

    /// Joins a file name under the base directory.
    fn join_path(&self, seg: &[u8]) -> (r: Vec<u8>)
        ensures
            r@ == spec_join(self.base_path@, seg@),
    {
        let n = self.base_path.len();
        let mut out = vstd::slice::slice_to_vec(self.base_path.as_slice());
        if n == 0 || self.base_path[n - 1] != 47 {
            out.push(47);
            assert(out@ =~= self.base_path@ + seq![47u8]);
        }
        append_bytes(&mut out, seg);
        out
    }

    /// Routes a request whose first segment is `files`: decides the
    /// filesystem step, or rejects the method or a missing file name.
    pub fn handle_file(&self, req: &Request) -> (r: Action)
        ensures
            r@ == spec_handle_file(self.base_path@, req@),
    {
        proof {
            reveal_strlit("POST");
            reveal_strlit("GET");
            reveal_strlit("400 Bad Request");
            reveal_strlit("405 Method Not Allowed");
        }
        let post = bytes_of("POST");
        let get = bytes_of("GET");
        if bytes_eq(req.method.as_slice(), post.as_slice()) {
            if req.path.len() < 2 {
                let status = bytes_of("400 Bad Request");
                let body: Vec<u8> = Vec::new();
                Action::Done(Response::new(status.as_slice(), body.as_slice()))
            } else {
                assert(req@.path[1] == req.path@[1]@);
                let path = self.join_path(req.path[1].as_slice());
                let body = vstd::slice::slice_to_vec(req.body.as_slice());
                Action::WriteFile(path, body)
            }
        } else if bytes_eq(req.method.as_slice(), get.as_slice()) {
            if req.path.len() < 2 {
                let status = bytes_of("400 Bad Request");
                let body: Vec<u8> = Vec::new();
                Action::Done(Response::new(status.as_slice(), body.as_slice()))
            } else {
                assert(req@.path[1] == req.path@[1]@);
                Action::ReadFile(self.join_path(req.path[1].as_slice()))
            }
        } else {
            let status = bytes_of("405 Method Not Allowed");
            let body: Vec<u8> = Vec::new();
            Action::Done(Response::new(status.as_slice(), body.as_slice()))
        }
    }

    /// Turns the filesystem's answer to a read into the response: the file
    /// content under an octet-stream content type, or a bad request carrying
    /// the error description.
    pub fn file_get_response(&self, result: Result<Vec<u8>, Vec<u8>>) -> (r: Response)
        ensures
            r@ == spec_file_get(
                match result {
                    Ok(c) => Ok::<Seq<u8>, Seq<u8>>(c@),
                    Err(e) => Err::<Seq<u8>, Seq<u8>>(e@),
                },
            ),
    {
        proof {
            reveal_strlit("200 OK");
            reveal_strlit("400 Bad Request");
            reveal_strlit("Content-Type");
            reveal_strlit("application/octet-stream");
        }
        match result {
            Ok(content) => {
                let status = bytes_of("200 OK");
                let mut resp = Response::new(status.as_slice(), content.as_slice());
                resp.add_header(bytes_of("Content-Type"), bytes_of("application/octet-stream"));
                resp
            },
            Err(msg) => {
                let status = bytes_of("400 Bad Request");
                Response::new(status.as_slice(), msg.as_slice())
            },
        }
    }

    /// Turns the filesystem's answer to a write into the response: created,
    /// or a bad request carrying the error description.
    pub fn file_post_response(&self, result: Result<(), Vec<u8>>) -> (r: Response)
        ensures
            r@ == spec_file_post(
                match result {
                    Ok(_) => Ok::<(), Seq<u8>>(()),
                    Err(e) => Err::<(), Seq<u8>>(e@),
                },
            ),
    {
        proof {
            reveal_strlit("201 Created");
            reveal_strlit("400 Bad Request");
        }
        match result {
            Ok(_) => {
                let status = bytes_of("201 Created");
                let body: Vec<u8> = Vec::new();
                Response::new(status.as_slice(), body.as_slice())
            },
            Err(msg) => {
                let status = bytes_of("400 Bad Request");
                Response::new(status.as_slice(), msg.as_slice())
            },
        }
    }
}

/// Header lookup is case-insensitive: two requests whose header names agree
/// up to ASCII case and whose values agree get the same response from the
/// user-agent route.
pub proof fn lemma_user_agent_case_insensitive(req1: ReqView, req2: ReqView)
    requires
        req1.headers.len() == req2.headers.len(),
        forall|i: int|
            0 <= i < req1.headers.len() ==> crate::bytes::lower(#[trigger] req1.headers[i].0)
                == crate::bytes::lower(#[trigger] req2.headers[i].0) && req1.headers[i].1
                == req2.headers[i].1,
    ensures
        spec_handle_user_agent(req1) == spec_handle_user_agent(req2),
{
    crate::headers::lemma_lookup_stored_case(req1.headers, req2.headers, ascii("user-agent"@));
}

/// Reading the same file twice through the file route, with the filesystem
/// answering the same both times, yields byte-identical responses; routing
/// itself never differs on equal requests.
pub proof fn lemma_files_get_idempotent(
    base: Seq<u8>,
    req1: ReqView,
    req2: ReqView,
    file1: Result<Seq<u8>, Seq<u8>>,
    file2: Result<Seq<u8>, Seq<u8>>,
)
    requires
        req1 == req2,
        file1 == file2,
    ensures
        crate::server::spec_dispatch(base, req1) == crate::server::spec_dispatch(base, req2),
        spec_serialize(spec_file_get(file1)) == spec_serialize(spec_file_get(file2)),
{
}

} // verus!
