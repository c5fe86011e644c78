//! The router: maps a parsed request's first path segment to a handler.
use vstd::prelude::*;
use crate::bytes::{ascii, bytes_of, bytes_eq};
use crate::request::{Request, ReqView};
use crate::handler::{
    HTTPHandler, Action, SpecAction, spec_handle_root, spec_handle_not_found, spec_handle_echo,
    spec_handle_user_agent, spec_handle_file,
};

verus! {

/// Server configuration: the base directory for file operations.
pub struct Args {
    pub dir: Vec<u8>,
}

/// What a request routes to, by its first path segment: the root when the
/// path is empty, then echo, user-agent, files, and not-found for the rest.
pub open spec fn spec_dispatch(base: Seq<u8>, req: ReqView) -> SpecAction {
    if req.path.len() == 0 {
        SpecAction::Done(spec_handle_root())
    } else if req.path[0] == ascii("echo"@) {
        SpecAction::Done(spec_handle_echo(req))
    } else if req.path[0] == ascii("user-agent"@) {
        SpecAction::Done(spec_handle_user_agent(req))
    } else if req.path[0] == ascii("files"@) {
        spec_handle_file(base, req)
    } else {
        SpecAction::Done(spec_handle_not_found())
    }
}

/// The router, owning the configured handlers.
pub struct Server {
    pub handler: HTTPHandler,
}

impl Server {
    pub fn new(args: Args) -> (r: Server)
        ensures
            r.handler.base_path@ == args.dir@,
    {
        Server { handler: HTTPHandler::new(args.dir) }
    }

    /// Routes one parsed request by its first path segment.
    pub fn dispatch(&self, req: &Request) -> (r: Action)
        ensures
            r@ == spec_dispatch(self.handler.base_path@, req@),
    {
        proof {
            reveal_strlit("echo");
            reveal_strlit("user-agent");
            reveal_strlit("files");
        }
        if req.path.len() == 0 {
            return Action::Done(self.handler.handle_root(req));
        }
        assert(req@.path[0] == req.path@[0]@);
        let first = &req.path[0];
        if bytes_eq(first.as_slice(), bytes_of("echo").as_slice()) {
            Action::Done(self.handler.handle_echo(req))
        } else if bytes_eq(first.as_slice(), bytes_of("user-agent").as_slice()) {
            Action::Done(self.handler.handle_user_agent(req))
        } else if bytes_eq(first.as_slice(), bytes_of("files").as_slice()) {
            self.handler.handle_file(req)
        } else {
            Action::Done(self.handler.handle_not_found())
        }
    }
}

} // verus!
